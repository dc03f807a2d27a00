//! Searches over the bodies of bookmarks, in an index in memory.

use bookmark_index::{
    BookmarkIndex, BookmarkIndexBuilder, BookmarkPointerInfo, EventId, IndexedBookmarkContent,
    MilliSecondsSinceUnixEpoch, RoomId, Score, UserId,
};

fn event_id(text: &str) -> EventId {
    EventId::parse(text).unwrap()
}

fn room_id(text: &str) -> RoomId {
    RoomId::parse(text).unwrap()
}

fn score(score: Score) -> f32 {
    f32::from_bits(score.bits)
}

/// Index a bookmark with the given (root) event id and body text, in a fixed default room.
///
/// All the other fields are filled with throwaway-but-valid values so the tests can focus on body
/// relevance/scoring.
fn index_bookmark(index: &mut BookmarkIndex, event_id: &str, body: &str) {
    index_bookmark_in_room(index, event_id, body, "!room:example.org");
}

/// Index a bookmark with the given (root) event id, body text and room id.
fn index_bookmark_in_room(index: &mut BookmarkIndex, event_id: &str, body: &str, room_id: &str) {
    let original_event_id = EventId::parse(event_id).unwrap();
    let pointer_event_id =
        EventId::parse(&format!("$pointer-for-{}:example.org", &event_id[1..2])).unwrap();
    let room_id = RoomId::parse(room_id).unwrap();

    let pointer_info = BookmarkPointerInfo {
        event_id: original_event_id.clone(),
        original_event_id,
        target_room_id: room_id,
        target_event_id: pointer_event_id,
    };
    let content = IndexedBookmarkContent::new(
        Some(body.to_owned()),
        MilliSecondsSinceUnixEpoch::new(0).unwrap(),
        UserId::parse("@alice:example.org").unwrap(),
    );

    let mut writer = index.get_writer().unwrap();
    index.add(&mut writer, pointer_info, content).unwrap();
    index.commit_and_reload(&mut writer).unwrap();
}

/// Searching only returns bookmarks whose body matches the query, and the returned scores are
/// strictly positive.
#[test]
fn test_search_body_only_returns_matching_bookmarks() {
    let mut index = BookmarkIndexBuilder::new_in_memory().build();

    let matching = event_id("$1-match:example.org");
    let other = event_id("$2-other:example.org");

    index_bookmark(&mut index, matching.as_str(), "the quick brown fox");
    index_bookmark(&mut index, other.as_str(), "completely unrelated content");

    let results = index.search("fox", 10, None, None).unwrap();

    assert_eq!(results.len(), 1, "only the matching bookmark should be returned");
    assert_eq!(results[0].original_event_id, matching);
    assert!(score(results[0].score) > 0.0, "a matching bookmark must have a positive score");
}

/// A bookmark whose body mentions the query term more often is more relevant and must be ranked
/// (scored) higher than one that mentions it only once.
#[test]
fn test_search_body_term_frequency_affects_score_ordering() {
    let mut index = BookmarkIndexBuilder::new_in_memory().build();

    let many = event_id("$1-many:example.org");
    let few = event_id("$2-few:example.org");

    index_bookmark(&mut index, many.as_str(), "matrix matrix matrix matrix matrix");
    index_bookmark(&mut index, few.as_str(), "matrix is a protocol for messaging");

    let results = index.search("matrix", 10, None, None).unwrap();

    assert_eq!(results.len(), 2, "both bookmarks mention the query term");

    // Results are ordered by descending score.
    assert_eq!(results[0].original_event_id, many);
    assert_eq!(results[1].original_event_id, few);
    assert!(
        score(results[0].score) > score(results[1].score),
        "the body matching the term more often must score higher: {} vs {}",
        score(results[0].score),
        score(results[1].score),
    );
}

/// A bookmark matching several of the query terms must score higher than one matching only a
/// single term.
#[test]
fn test_search_body_more_matching_terms_scores_higher() {
    let mut index = BookmarkIndexBuilder::new_in_memory().build();

    let full = event_id("$1-full:example.org");
    let partial = event_id("$2-part:example.org");

    index_bookmark(&mut index, full.as_str(), "quick brown fox");
    index_bookmark(&mut index, partial.as_str(), "quick green turtle");

    // An OR query: both bookmarks match "quick", but only one matches "brown" and "fox" as well.
    let results = index.search("quick brown fox", 10, None, None).unwrap();

    assert_eq!(results.len(), 2);
    assert_eq!(results[0].original_event_id, full);
    assert_eq!(results[1].original_event_id, partial);
    assert!(
        score(results[0].score) > score(results[1].score),
        "matching more query terms must score higher: {} vs {}",
        score(results[0].score),
        score(results[1].score),
    );
}

/// A rarer term carries more weight (higher IDF) than a term present in every document, so the
/// bookmark matching the rare term ranks first.
#[test]
fn test_search_body_rare_term_scores_higher() {
    let mut index = BookmarkIndexBuilder::new_in_memory().build();

    let rare = event_id("$1-rare:example.org");
    let common_a = event_id("$2-coma:example.org");
    let common_b = event_id("$3-comb:example.org");

    // "common" appears in every document, "unicorn" only in one.
    index_bookmark(&mut index, rare.as_str(), "common unicorn");
    index_bookmark(&mut index, common_a.as_str(), "common ordinary thing");
    index_bookmark(&mut index, common_b.as_str(), "common everyday item");

    let results = index.search("common unicorn", 10, None, None).unwrap();

    println!("{results:?}");
    assert_eq!(results.len(), 3);
    assert_eq!(
        results[0].original_event_id, rare,
        "the bookmark matching the rare term should rank first",
    );
    assert!(score(results[0].score) > score(results[1].score));
}

/// Searching for a term that no bookmark body contains returns nothing.
#[test]
fn test_search_body_no_match_returns_empty() {
    let mut index = BookmarkIndexBuilder::new_in_memory().build();

    index_bookmark(&mut index, "$1-a:example.org", "hello world");
    index_bookmark(&mut index, "$2-b:example.org", "goodbye world");

    let results = index.search("nonexistent", 10, None, None).unwrap();

    assert!(results.is_empty(), "no body matches the query: {results:?}");
}

/// A room_id filter restricts the results to bookmarks living in that room, even when bookmarks in
/// other rooms match the query just as well.
#[test]
fn test_search_body_room_filter_excludes_other_rooms() {
    let mut index = BookmarkIndexBuilder::new_in_memory().build();

    let room_a = room_id("!room-a:example.org");
    let room_b = room_id("!room-b:example.org");

    let in_a = event_id("$1-a:example.org");
    let in_b = event_id("$2-b:example.org");

    index_bookmark_in_room(&mut index, in_a.as_str(), "shared matrix term", room_a.as_str());
    index_bookmark_in_room(&mut index, in_b.as_str(), "shared matrix term", room_b.as_str());

    // Without a filter, both rooms match.
    let unfiltered = index.search("matrix", 10, None, None).unwrap();
    assert_eq!(unfiltered.len(), 2);

    // With a filter, only the bookmark in room A is returned.
    let results = index.search("matrix", 10, None, Some(&room_a)).unwrap();

    assert_eq!(results.len(), 1, "only the bookmark in the filtered room should be returned");
    assert_eq!(results[0].original_event_id, in_a);
    assert_eq!(results[0].target_room_id, room_a);
    assert!(score(results[0].score) > 0.0, "a matching bookmark must have a positive score");
}

/// Within a single filtered room, body relevance still drives the ordering: the more relevant
/// bookmark in the room ranks first, and matching bookmarks in other rooms do not interfere.
#[test]
fn test_search_body_relevance_ordering_within_room_filter() {
    let mut index = BookmarkIndexBuilder::new_in_memory().build();

    let room_a = room_id("!room-a:example.org");
    let room_b = room_id("!room-b:example.org");

    let many = event_id("$1-many:example.org");
    let few = event_id("$2-few:example.org");
    let noise = event_id("$3-nois:example.org");

    // Two matching bookmarks in room A with differing term frequency...
    index_bookmark_in_room(
        &mut index,
        many.as_str(),
        "matrix matrix matrix matrix",
        room_a.as_str(),
    );
    index_bookmark_in_room(&mut index, few.as_str(), "matrix is a protocol", room_a.as_str());
    // ...and a strongly-matching bookmark in room B that must be filtered out.
    index_bookmark_in_room(
        &mut index,
        noise.as_str(),
        "matrix matrix matrix matrix matrix matrix",
        room_b.as_str(),
    );

    let results = index.search("matrix", 10, None, Some(&room_a)).unwrap();

    assert_eq!(results.len(), 2, "only room A bookmarks should be returned");
    assert!(results.iter().all(|bookmark| bookmark.target_room_id == room_a));

    // Relevance ordering is preserved within the filtered room.
    assert_eq!(results[0].original_event_id, many);
    assert_eq!(results[1].original_event_id, few);
    assert!(
        score(results[0].score) > score(results[1].score),
        "the more relevant bookmark in the room must score higher: {} vs {}",
        score(results[0].score),
        score(results[1].score),
    );
}

/// A room_id filter pointing at a room without any matching bookmark returns nothing, even if the
/// query matches bookmarks in other rooms.
#[test]
fn test_search_body_room_filter_no_match_returns_empty() {
    let mut index = BookmarkIndexBuilder::new_in_memory().build();

    let room_a = room_id("!room-a:example.org");
    let room_b = room_id("!room-b:example.org");

    index_bookmark_in_room(&mut index, "$1-a:example.org", "matrix term", room_a.as_str());

    // The query matches a bookmark, but not in room B.
    let results = index.search("matrix", 10, None, Some(&room_b)).unwrap();

    assert!(results.is_empty(), "no bookmark in the filtered room matches: {results:?}");
}

/// Looking a bookmark up by its (root) target event id must return the original event id of the
/// bookmark event, even for event ids that contain characters that the query parser would otherwise
/// treat as syntax.
#[test]
fn test_get_original_event_id_from_target_event_returns_original_event_id() {
    let mut index = BookmarkIndexBuilder::new_in_memory().build();

    let original_event_id = event_id("$bookmark-event_id:example.org");
    let target_event_id = event_id("$some-event_id:example.org");
    let room_id = room_id("!room:example.org");

    let pointer_info = BookmarkPointerInfo {
        event_id: original_event_id.clone(),
        original_event_id: original_event_id.clone(),
        target_room_id: room_id,
        target_event_id: target_event_id.clone(),
    };
    let content = IndexedBookmarkContent::new(
        Some("hello world".to_owned()),
        MilliSecondsSinceUnixEpoch::new(0).unwrap(),
        UserId::parse("@alice:example.org").unwrap(),
    );

    let mut writer = index.get_writer().unwrap();
    index.add(&mut writer, pointer_info, content).unwrap();
    index.commit_and_reload(&mut writer).unwrap();

    assert!(index.contains_bookmark(&target_event_id));
    assert_eq!(
        index.get_pointer_info_from_target_event(&target_event_id).map(|o| o.original_event_id),
        Some(original_event_id)
    );

    // A non-bookmarked event returns nothing.
    assert!(!index.contains_bookmark(&event_id("$not-bookmarked:example.org")));
    assert_eq!(
        index.get_pointer_info_from_target_event(&event_id("$not-bookmarked:example.org")),
        None
    );
}
