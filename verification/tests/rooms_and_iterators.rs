//! Searches in one room and across rooms, page by page.

use bookmark_index::bookmark::{BookmarkPointerInfo, IndexedBookmark, IndexedBookmarkContent};
use bookmark_index::builder::BookmarkIndexBuilder;
use bookmark_index::error::IndexError;
use bookmark_index::global::latest_in_rooms;
use bookmark_index::ids::{EventId, MilliSecondsSinceUnixEpoch, RoomId, Score, UserId};
use bookmark_index::index::BookmarkIndex;
use bookmark_index::operation::BookmarkIndexOperation;
use bookmark_index::rooms::{
    create_bookmarks_room, next_creation_step, BookmarksRoomStep, Client, CreationEvent, CreationStep,
    Room, RoomType, Visibility,
};
use bookmark_index::search::{latest_version, latest_versions};

fn event_id(text: &str) -> EventId {
    EventId::parse(text).unwrap()
}

fn room_id(text: &str) -> RoomId {
    RoomId::parse(text).unwrap()
}

fn room(text: &str) -> Room {
    Room { room_id: room_id(text), joined: true, display_name: None }
}

fn bookmark(id: &str, room: &str, target: &str, body: &str) -> BookmarkIndexOperation {
    BookmarkIndexOperation::Edit(
        BookmarkPointerInfo {
            event_id: event_id(id),
            original_event_id: event_id(id),
            target_room_id: room_id(room),
            target_event_id: event_id(target),
        },
        IndexedBookmarkContent::new(
            Some(body.to_owned()),
            MilliSecondsSinceUnixEpoch::new(0).unwrap(),
            UserId::parse("@alice:example.org").unwrap(),
        ),
    )
}

const A: &str = "!a:example.org";
const B: &str = "!b:example.org";
const C: &str = "!c:example.org";

/// Five bookmarks in the first room, two in the second and none in the third.
fn filled() -> BookmarkIndex {
    let mut index = BookmarkIndexBuilder::new_in_memory().build();
    index
        .bulk_execute(vec![
            bookmark("$a1:example.org", A, "$ta1:example.org", "matrix"),
            bookmark("$a2:example.org", A, "$ta2:example.org", "matrix matrix"),
            bookmark("$a3:example.org", A, "$ta3:example.org", "matrix and other words"),
            bookmark("$a4:example.org", A, "$ta4:example.org", "something else"),
            bookmark("$a5:example.org", A, "$ta4:example.org", "something else again"),
            bookmark("$b1:example.org", B, "$tb1:example.org", "matrix matrix matrix"),
            bookmark("$b2:example.org", B, "$tb2:example.org", "matrix in a rather long sentence"),
        ])
        .unwrap();
    index
}

fn ids(bookmarks: &[IndexedBookmark]) -> Vec<String> {
    bookmarks.iter().map(|bookmark| bookmark.event_id.as_str().to_owned()).collect()
}

#[test]
fn bookmarked_events_of_a_room_are_collected_once() {
    let index = filled();
    let mut targets: Vec<String> = room(A)
        .bookmarked_event_ids(&index)
        .unwrap()
        .iter()
        .map(|id| id.as_str().to_owned())
        .collect();
    targets.sort();
    assert_eq!(
        targets,
        vec!["$ta1:example.org", "$ta2:example.org", "$ta3:example.org", "$ta4:example.org"]
    );
    assert!(room(C).bookmarked_event_ids(&index).unwrap().is_empty());
}

#[test]
fn many_bookmarked_events_are_collected() {
    for count in [99, 100, 101, 250] {
        let mut index = BookmarkIndexBuilder::new_in_memory().build();
        let mut operations = Vec::new();
        let mut expected = Vec::new();
        for i in 0..count {
            let target = format!("$t{i}:example.org");
            operations.push(bookmark(&format!("$b{i}:example.org"), A, &target, "text"));
            expected.push(target);
        }
        index.bulk_execute(operations).unwrap();
        let mut targets: Vec<String> = room(A)
            .bookmarked_event_ids(&index)
            .unwrap()
            .iter()
            .map(|id| id.as_str().to_owned())
            .collect();
        targets.sort();
        expected.sort();
        assert_eq!(targets, expected);
    }
}

#[test]
fn room_search_stays_in_the_room() {
    let index = filled();
    let results = room(B).search_room_bookmarks(&index, "matrix", 10, None).unwrap();
    assert_eq!(results.len(), 2);
    assert!(results.iter().all(|bookmark| bookmark.target_room_id == room_id(B)));
    assert!(room(C).search_room_bookmarks(&index, "*", 10, None).unwrap().is_empty());
}

#[test]
fn room_search_brings_its_part_of_the_search_in_all_rooms() {
    let index = filled();
    for query in ["matrix", "something OR words", "*"] {
        let all = index.search(query, 10, None, None).unwrap();
        let mut parts = 0;
        for id in [A, B, C] {
            let mut expected: Vec<String> = all
                .iter()
                .filter(|bookmark| bookmark.target_room_id == room_id(id))
                .map(|bookmark| bookmark.event_id.as_str().to_owned())
                .collect();
            let mut results = ids(&room(id).search_room_bookmarks(&index, query, 10, None).unwrap());
            expected.sort();
            results.sort();
            assert_eq!(results, expected);
            parts += results.len();
        }
        assert_eq!(parts, all.len());
    }
}

#[test]
fn batches_of_a_search_for_words_bring_every_match_once() {
    let index = filled();
    let mut iterator = room(A).search_room_bookmarks_iterator("matrix".to_owned(), 2);
    let mut all = Vec::new();
    while let Some(batch) = iterator.next(&index).unwrap() {
        all.extend(ids(&batch));
    }
    all.sort();
    assert_eq!(all, vec!["$a1:example.org", "$a2:example.org", "$a3:example.org"]);
}

#[test]
fn room_iterator_pages_through_all_results() {
    let index = filled();
    let mut iterator = room(A).search_room_bookmarks_iterator("*".to_owned(), 2);
    let mut sizes = Vec::new();
    let mut all = Vec::new();
    while let Some(batch) = iterator.next(&index).unwrap() {
        sizes.push(batch.len());
        all.extend(ids(&batch));
    }
    assert_eq!(sizes, vec![2, 2, 1]);
    all.sort();
    all.dedup();
    assert_eq!(all.len(), 5);
    assert!(iterator.next(&index).unwrap().is_none());
}

#[test]
fn room_iterator_reports_a_bad_query_each_time() {
    let index = filled();
    let mut iterator = room(A).search_room_bookmarks_iterator("nowhere:x".to_owned(), 2);
    assert!(matches!(iterator.next(&index), Err(IndexError::QueryParserError(_))));
    assert!(matches!(iterator.next(&index), Err(IndexError::QueryParserError(_))));
}

#[test]
fn room_iterator_accepts_results() {
    let mut iterator = room(A).search_room_bookmarks_iterator("*".to_owned(), 2);
    let results = room(B).search_room_bookmarks(&filled(), "*", 10, None).unwrap();
    assert_eq!(iterator.accept(results).map(|batch| batch.len()), Some(2));
    assert!(iterator.accept(vec![]).is_none());
    // Without results it is done.
    assert!(iterator.next(&filled()).unwrap().is_none());
}

fn client() -> Client {
    Client::new(vec![
        room(A),
        room(B),
        room(C),
        Room { room_id: room_id("!left:example.org"), joined: false, display_name: None },
    ])
}

#[test]
fn global_search_merges_rooms_by_relevance() {
    let index = filled();
    let mut iterator = client().search_bookmarks("matrix".to_owned(), 10).build();
    assert!(iterator.needs_search());
    assert!(iterator.can_continue());
    let batch = iterator.next(&index).unwrap().unwrap();
    assert_eq!(batch.len(), 5);
    assert!(batch.windows(2).all(|pair| !pair[1].1.score.is_above(&pair[0].1.score)));
    assert!(batch.iter().all(|(room, bookmark)| bookmark.target_room_id == *room));
    let (room, best) = &batch[0];
    assert_eq!(*room, room_id(B));
    assert_eq!(best.event_id, event_id("$b1:example.org"));
    assert!(iterator.next(&index).unwrap().is_none());
    assert!(iterator.next(&index).unwrap().is_none());
    assert!(!iterator.needs_search());
    assert!(iterator.next_buffered().is_none());
}

#[test]
fn global_search_hands_out_everything_in_batches() {
    let index = filled();
    for size in 1..9 {
        let mut iterator = client().search_bookmarks("*".to_owned(), size).build();
        let mut all = Vec::new();
        let mut batches = 0;
        while let Some(batch) = iterator.next(&index).unwrap() {
            assert!(!batch.is_empty() && batch.len() <= size);
            all.extend(batch.into_iter().map(|(_, bookmark)| bookmark.event_id.as_str().to_owned()));
            batches += 1;
            assert!(batches < 20);
        }
        all.sort();
        assert_eq!(
            all,
            vec![
                "$a1:example.org",
                "$a2:example.org",
                "$a3:example.org",
                "$a4:example.org",
                "$a5:example.org",
                "$b1:example.org",
                "$b2:example.org",
            ]
        );
    }
}

#[test]
fn global_search_without_rooms_is_over() {
    let mut iterator = Client::new(vec![]).search_bookmarks("*".to_owned(), 3).build();
    assert!(!iterator.needs_search());
    assert!(iterator.next(&filled()).unwrap().is_none());
}

#[test]
fn global_search_for_empty_batches_hands_out_empty_batches() {
    let mut iterator = client().search_bookmarks("*".to_owned(), 0).build();
    assert!(!iterator.needs_search());
    assert_eq!(iterator.next(&filled()).unwrap().map(|batch| batch.len()), Some(0));
    assert_eq!(iterator.next(&filled()).unwrap().map(|batch| batch.len()), Some(0));
}

#[test]
fn global_search_reports_a_bad_query() {
    let mut iterator = client().search_bookmarks("nowhere:x".to_owned(), 3).build();
    assert!(matches!(iterator.next(&filled()), Err(IndexError::QueryParserError(_))));
}

#[test]
fn global_search_is_restricted_to_wanted_rooms() {
    let index = filled();
    let builder = client().search_bookmarks("*".to_owned(), 10);
    assert_eq!(builder.room_set().len(), 3);
    let marks = vec![true, false, true];
    let rooms = |batch: Vec<(RoomId, IndexedBookmark)>| -> Vec<String> {
        let mut rooms: Vec<String> =
            batch.iter().map(|(room, _)| room.as_str().to_owned()).collect();
        rooms.dedup();
        rooms
    };
    let mut only = builder.only_dm_rooms(&marks).build();
    assert_eq!(rooms(only.next(&index).unwrap().unwrap()), vec![A]);
    let mut without = client().search_bookmarks("*".to_owned(), 10).no_dms(&marks).build();
    assert_eq!(rooms(without.next(&index).unwrap().unwrap()), vec![B]);
}

#[test]
fn client_knows_each_room_once() {
    let mut twice = room(A);
    twice.joined = false;
    twice.display_name = Some("twice".to_owned());
    let client = Client::new(vec![room(A), twice, room(B)]);
    assert_eq!(client.joined_rooms().len(), 2);
    assert!(client.get_room(&room_id(A)).unwrap().display_name.is_none());
    assert!(client.get_room(&room_id(C)).is_none());
    assert_eq!(client.get_bookmarks_room(Some(&room_id(B))).unwrap().room_id, room_id(B));
    assert!(client.get_bookmarks_room(Some(&room_id(C))).is_none());
    assert!(client.get_bookmarks_room(None).is_none());
}

#[test]
fn bookmarks_room_is_used_created_or_done_without() {
    assert!(matches!(
        Client::with_bookmarks_room(Ok(Some(room(A))), false),
        BookmarksRoomStep::Use(found) if found.room_id == room_id(A)
    ));
    assert!(matches!(Client::with_bookmarks_room(Ok(None), true), BookmarksRoomStep::Create));
    assert!(matches!(Client::with_bookmarks_room(Ok(None), false), BookmarksRoomStep::GiveUp));
    assert!(matches!(
        Client::with_bookmarks_room(Err("offline".to_owned()), true),
        BookmarksRoomStep::GiveUp
    ));
}

#[test]
fn bookmarks_room_is_created_noted_and_encrypted() {
    let step = create_bookmarks_room();
    match &step {
        CreationStep::Create(request) => {
            assert_eq!(request.name, "Bookmarks");
            assert_eq!(request.visibility, Visibility::Private);
            assert_eq!(request.room_type, RoomType::Bookmarks);
        }
        other => panic!("unexpected step: {other:?}"),
    }
    let next = |event, encryption| next_creation_step(event, room_id(A), encryption);
    assert!(matches!(
        next(CreationEvent::Created, true),
        CreationStep::SetAccountData(id) if id == room_id(A)
    ));
    assert!(matches!(
        next(CreationEvent::Noted, true),
        CreationStep::EnableEncryption(id) if id == room_id(A)
    ));
    assert!(matches!(next(CreationEvent::Noted, false), CreationStep::Done(_)));
    assert!(matches!(
        next(CreationEvent::Encrypted, true),
        CreationStep::Done(id) if id == room_id(A)
    ));
}

#[test]
fn bookmark_and_removal_requests() {
    let mut named = room(A);
    named.display_name = Some("Room A".to_owned());
    let content = named.bookmark_event(&event_id("$t:example.org"), "Alice");
    assert_eq!(content.pointer.room_id, room_id(A));
    assert_eq!(content.pointer.event_id, event_id("$t:example.org"));
    assert!(content.pointer.via.is_empty());
    assert_eq!(content.sender_display_name, "Alice");
    assert_eq!(content.room_display_name, "Room A");
    assert!(content.relates_to.is_none());
    assert_eq!(room(A).bookmark_event(&event_id("$t:example.org"), "").room_display_name, "");
    let request = Client::unbookmark_event(&event_id("$b:example.org"));
    assert_eq!(request.event_id, event_id("$b:example.org"));
    assert_eq!(request.reason, "Bookmark removal");
}

#[test]
fn latest_version_is_the_last_replacement() {
    assert_eq!(latest_version(1, vec![2, 3]), 3);
    assert_eq!(latest_version(1, vec![]), 1);
    assert_eq!(latest_versions(vec![(1, vec![2]), (3, vec![])]), vec![2, 3]);
    let loaded = vec![
        (room_id(A), Some((1, vec![2, 5]))),
        (room_id(C), None),
        (room_id(B), Some((3, vec![]))),
    ];
    assert_eq!(latest_in_rooms(loaded), vec![(room_id(A), 5), (room_id(B), 3)]);
}

#[test]
fn scores_are_ordered_like_the_numbers() {
    let numbers = [f32::NEG_INFINITY, -1.5, -0.0, 0.0, 0.25, 1.0, 7.5, f32::INFINITY];
    for (i, low) in numbers.iter().enumerate() {
        for (j, high) in numbers.iter().enumerate() {
            let above = Score { bits: high.to_bits() }.is_above(&Score { bits: low.to_bits() });
            assert_eq!(above, j > i, "{high} above {low}");
        }
    }
}
