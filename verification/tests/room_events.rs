//! What events of the bookmarks room lead to.

use bookmark_index::events::{
    BookmarkEventContent, MessageType, OriginalSyncBookmarkEvent, OriginalSyncRoomMessageEvent,
    PointerContentBlock, RedactionEvent, Relation, Replacement, SyncBookmarkEvent,
};
use bookmark_index::guard::{BookmarkIndexGuard, BookmarkIndexStoreKind};
use bookmark_index::handling::{
    flatten_operations, get_most_recent_timeline_event_edit, handle_bookmark_redaction,
    parse_bookmarks_room_event, BookmarksRoomEvent, Lookup, Relations, Step,
};
use bookmark_index::ids::{EventId, MilliSecondsSinceUnixEpoch, RoomId, UserId};
use bookmark_index::operation::BookmarkIndexOperation;

fn event_id(text: &str) -> EventId {
    EventId::parse(text).unwrap()
}

fn pointer(room: &str, target: &str) -> PointerContentBlock {
    PointerContentBlock {
        room_id: RoomId::parse(room).unwrap(),
        event_id: event_id(target),
        via: vec![],
    }
}

fn bookmark(id: &str, relates_to: Option<Relation>) -> OriginalSyncBookmarkEvent {
    OriginalSyncBookmarkEvent {
        event_id: event_id(id),
        content: BookmarkEventContent {
            pointer: pointer("!room:example.org", "$target:example.org"),
            sender_display_name: String::new(),
            room_display_name: String::new(),
            relates_to,
        },
    }
}

fn edit(id: &str) -> OriginalSyncBookmarkEvent {
    bookmark(
        id,
        Some(Relation::Replacement(Replacement {
            event_id: event_id("$original:example.org"),
            new_pointer: pointer("!other:example.org", "$new:example.org"),
        })),
    )
}

fn message(body: &str) -> Option<OriginalSyncRoomMessageEvent> {
    Some(OriginalSyncRoomMessageEvent {
        sender: UserId::parse("@alice:example.org").unwrap(),
        origin_server_ts: MilliSecondsSinceUnixEpoch::new(1).unwrap(),
        msgtype: MessageType::Text(body.to_owned()),
    })
}

fn relations(bodies: &[&str]) -> Relations {
    let mut events: Vec<_> = bodies.iter().map(|body| message(body)).collect();
    let original = events.remove(0);
    Relations { original, related: events }
}

fn lookup(step: Step) -> Lookup {
    match step {
        Step::OpenCache(lookup) | Step::FindInCache(lookup) | Step::Fetch(lookup) => lookup,
        other => panic!("unexpected step: {other:?}"),
    }
}

fn operation(step: Step) -> Option<BookmarkIndexOperation> {
    match step {
        Step::Finish(operation) => operation,
        other => panic!("unexpected step: {other:?}"),
    }
}

fn original(event: OriginalSyncBookmarkEvent) -> BookmarksRoomEvent {
    BookmarksRoomEvent::Bookmark(SyncBookmarkEvent::Original(event))
}

#[test]
fn bookmark_is_added_with_the_latest_edit_of_its_target() {
    let step = parse_bookmarks_room_event(original(bookmark("$b:example.org", None)));
    assert!(matches!(&step, Step::OpenCache(_)));
    let first = lookup(step);
    assert_eq!(first.room_id.as_str(), "!room:example.org");
    assert_eq!(first.event_id, event_id("$target:example.org"));
    let step = first.cache_opened(true);
    assert!(matches!(&step, Step::FindInCache(_)));
    let step = lookup(step).found_in_cache(Some(relations(&["one", "two", "three"])));
    match operation(step) {
        Some(BookmarkIndexOperation::Add(event, content)) => {
            assert_eq!(event.event_id, event_id("$b:example.org"));
            assert_eq!(content.body, Some("three".to_owned()));
        }
        other => panic!("unexpected operation: {other:?}"),
    }
}

#[test]
fn target_is_fetched_where_the_cache_has_it_not() {
    let event = || original(bookmark("$b:example.org", Some(Relation::Other)));
    let step = lookup(parse_bookmarks_room_event(event())).cache_opened(true);
    let step = lookup(step).found_in_cache(None);
    assert!(matches!(&step, Step::Fetch(_)));
    match operation(lookup(step).fetched(Some(relations(&["one"])))) {
        Some(BookmarkIndexOperation::Add(_, content)) => {
            assert_eq!(content.body, Some("one".to_owned()));
        }
        other => panic!("unexpected operation: {other:?}"),
    }
    let step = lookup(parse_bookmarks_room_event(event())).cache_opened(true);
    let step = lookup(step).found_in_cache(None);
    assert!(operation(lookup(step).fetched(None)).is_none());
}

#[test]
fn bookmark_of_an_unknown_target_is_left_alone() {
    let event = || original(bookmark("$b:example.org", None));
    assert!(operation(lookup(parse_bookmarks_room_event(event())).cache_opened(false)).is_none());
    let step = lookup(parse_bookmarks_room_event(event())).cache_opened(true);
    let no_message = Relations { original: message("one"), related: vec![None] };
    assert!(operation(lookup(step).found_in_cache(Some(no_message))).is_none());
}

#[test]
fn edited_bookmark_is_replaced() {
    let first = lookup(parse_bookmarks_room_event(original(edit("$e:example.org"))));
    assert_eq!(first.room_id.as_str(), "!other:example.org");
    assert_eq!(first.event_id, event_id("$new:example.org"));
    let step = lookup(first.cache_opened(true)).found_in_cache(Some(relations(&["one", "two"])));
    match operation(step) {
        Some(BookmarkIndexOperation::Edit(info, content)) => {
            assert_eq!(info.event_id, event_id("$e:example.org"));
            assert_eq!(info.original_event_id, event_id("$original:example.org"));
            assert_eq!(info.target_event_id, event_id("$new:example.org"));
            assert_eq!(content.body, Some("two".to_owned()));
        }
        other => panic!("unexpected operation: {other:?}"),
    }
    let first = lookup(parse_bookmarks_room_event(original(edit("$e:example.org"))));
    assert!(matches!(operation(first.cache_opened(false)), Some(BookmarkIndexOperation::Noop)));
}

#[test]
fn redacted_bookmarks_are_removed() {
    let redacted =
        BookmarksRoomEvent::Bookmark(SyncBookmarkEvent::Redacted(event_id("$b:example.org")));
    assert!(matches!(
        operation(parse_bookmarks_room_event(redacted)),
        Some(BookmarkIndexOperation::Remove(id)) if id == event_id("$b:example.org")
    ));
    let redaction = BookmarksRoomEvent::Redaction(Some(event_id("$b:example.org")));
    assert!(matches!(
        parse_bookmarks_room_event(redaction),
        Step::FindRedacted(id) if id == event_id("$b:example.org")
    ));
    let found = SyncBookmarkEvent::Original(bookmark("$b:example.org", None));
    assert!(matches!(
        operation(handle_bookmark_redaction(Some(found))),
        Some(BookmarkIndexOperation::Remove(id)) if id == event_id("$b:example.org")
    ));
    let found = SyncBookmarkEvent::Original(edit("$e:example.org"));
    assert!(matches!(
        operation(handle_bookmark_redaction(Some(found))),
        Some(BookmarkIndexOperation::Remove(id)) if id == event_id("$e:example.org")
    ));
    let found = SyncBookmarkEvent::Redacted(event_id("$b:example.org"));
    assert!(operation(handle_bookmark_redaction(Some(found))).is_none());
    assert!(operation(handle_bookmark_redaction(None)).is_none());
}

#[test]
fn other_events_lead_to_nothing() {
    for event in [
        BookmarksRoomEvent::Undecryptable,
        BookmarksRoomEvent::Unreadable,
        BookmarksRoomEvent::Redaction(None),
        BookmarksRoomEvent::Other,
    ] {
        assert!(operation(parse_bookmarks_room_event(event)).is_none());
    }
}

#[test]
fn most_recent_edit_counts() {
    let body = |relations: Relations| {
        get_most_recent_timeline_event_edit(relations).and_then(|message| message.msgtype.body())
    };
    assert_eq!(body(relations(&["one"])), Some("one".to_owned()));
    assert_eq!(body(relations(&["one", "two"])), Some("two".to_owned()));
}

#[test]
fn settled_operations_are_executed() {
    let remove = |id: &str| Some(BookmarkIndexOperation::Remove(event_id(id)));
    let flat = flatten_operations(vec![None, remove("$a:example.org"), None, remove("$b:example.org")]);
    let ids: Vec<String> = flat
        .iter()
        .map(|operation| match operation {
            BookmarkIndexOperation::Remove(id) => id.as_str().to_owned(),
            other => panic!("unexpected operation: {other:?}"),
        })
        .collect();
    assert_eq!(ids, vec!["$a:example.org", "$b:example.org"]);

    let mut guard = BookmarkIndexGuard::new(BookmarkIndexStoreKind::InMemory);
    guard.handle_bookmark_event(None, None).unwrap();
    let step = lookup(parse_bookmarks_room_event(original(bookmark("$b:example.org", None))));
    let step = lookup(step.cache_opened(true)).found_in_cache(Some(relations(&["quick fox"])));
    guard.handle_bookmark_event(None, operation(step)).unwrap();
    assert_eq!(guard.search(None, "fox", 10, None, None).unwrap().len(), 1);
    guard.bulk_handle_bookmark_event(None, vec![None, remove("$b:example.org")]).unwrap();
    assert!(guard.search(None, "*", 10, None, None).unwrap().is_empty());
}

#[test]
fn redacted_event_is_named_in_the_content_or_beside_it() {
    let beside = || Some(event_id("$beside:example.org"));
    let inside = || Some(event_id("$inside:example.org"));
    let both = || RedactionEvent::Original { redacts: beside(), content_redacts: inside() };
    assert_eq!(both().redacts(true), inside());
    assert_eq!(both().redacts(false), beside());
    let only_beside = || RedactionEvent::Original { redacts: beside(), content_redacts: None };
    assert_eq!(only_beside().redacts(true), beside());
    assert_eq!(only_beside().redacts(false), beside());
    let only_inside = || RedactionEvent::Original { redacts: None, content_redacts: inside() };
    assert_eq!(only_inside().redacts(false), inside());
    assert_eq!(RedactionEvent::Redacted { content_redacts: None }.redacts(false), None);
    assert_eq!(RedactionEvent::Redacted { content_redacts: inside() }.redacts(false), inside());
}
