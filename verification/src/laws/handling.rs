//! What the events of the bookmarks room lead to, step by step.

use vstd::prelude::*;

use crate::bookmark::{BookmarkPointerInfo, IndexedBookmarkContent};
use crate::events::{
    OriginalSyncBookmarkEvent, OriginalSyncRoomMessageEvent, Relation, SyncBookmarkEvent,
};
use crate::global::{current_in_rooms, latest_in_rooms};
use crate::handling::{
    flatten_operations, get_most_recent_timeline_event_edit, handle_bookmark_redaction,
    handle_possible_edit, handle_sync_bookmark, parse_bookmarks_room_event, settled_operations,
    BookmarksRoomEvent, Goal, Lookup, Relations, Step,
};
use crate::ids::{EventId, RoomId};
use crate::operation::BookmarkIndexOperation;
use crate::search::{latest_version, latest_versions};

verus! {

// ---------------------------------------------------------------------------------------------
// Current versions
// ---------------------------------------------------------------------------------------------

/// The current version of an event is its last replacement, and the event itself where it has none.
pub proof fn law_last_replacement_counts<T>(original: T, replacements: Vec<T>, latest: T)
    requires
        call_ensures(latest_version::<T>, (original, replacements), latest),
    ensures
        replacements@.len() == 0 ==> latest == original,
        replacements@.len() > 0 ==> latest == replacements@[replacements@.len() - 1],
{
}

/// Every event that was loaded has its current version in the list, at its place.
pub proof fn law_every_event_has_its_latest_version<T>(
    loaded: Vec<(T, Vec<T>)>,
    events: Vec<T>,
    i: int,
)
    requires
        call_ensures(latest_versions::<T>, (loaded,), events),
        0 <= i < loaded@.len(),
    ensures
        events@.len() == loaded@.len(),
        loaded@[i].1@.len() == 0 ==> events@[i] == loaded@[i].0,
        loaded@[i].1@.len() > 0 ==> events@[i] == loaded@[i].1@[loaded@[i].1@.len() - 1],
{
}

/// Current versions across rooms, in terms of lists.
proof fn lemma_current_in_rooms<T>(loaded: Seq<(RoomId, Option<(T, Vec<T>)>)>)
    ensures
        current_in_rooms(loaded) == loaded.filter(
            |entry: (RoomId, Option<(T, Vec<T>)>)| entry.1 is Some,
        ).map_values(
            |entry: (RoomId, Option<(T, Vec<T>)>)|
                (
                    entry.0,
                    if entry.1->Some_0.1@.len() == 0 {
                        entry.1->Some_0.0
                    } else {
                        entry.1->Some_0.1@[entry.1->Some_0.1@.len() - 1]
                    },
                ),
        ),
    decreases loaded.len(),
{
    reveal(Seq::filter);
    if loaded.len() > 0 {
        lemma_current_in_rooms(loaded.drop_last());
    }
}

/// Across rooms, exactly the events that were loaded have their current versions in the list, each with
/// its room and in their order.
pub proof fn law_every_loaded_event_has_its_latest_version<T>(
    loaded: Vec<(RoomId, Option<(T, Vec<T>)>)>,
    events: Vec<(RoomId, T)>,
)
    requires
        call_ensures(latest_in_rooms::<T>, (loaded,), events),
    ensures
        events@ == loaded@.filter(
            |entry: (RoomId, Option<(T, Vec<T>)>)| entry.1 is Some,
        ).map_values(
            |entry: (RoomId, Option<(T, Vec<T>)>)|
                (
                    entry.0,
                    if entry.1->Some_0.1@.len() == 0 {
                        entry.1->Some_0.0
                    } else {
                        entry.1->Some_0.1@[entry.1->Some_0.1@.len() - 1]
                    },
                ),
        ),
{
    lemma_current_in_rooms(loaded@);
}

/// The current version of a message is the last event that relates to it, and the message itself where
/// there is none.
pub proof fn law_last_related_event_counts(
    relations: Relations,
    message: Option<OriginalSyncRoomMessageEvent>,
)
    requires
        call_ensures(get_most_recent_timeline_event_edit, (relations,), message),
    ensures
        relations.related@.len() == 0 ==> message == relations.original,
        relations.related@.len() > 0 ==> message == relations.related@[relations.related@.len() - 1],
{
}

// ---------------------------------------------------------------------------------------------
// Steps
// ---------------------------------------------------------------------------------------------

/// A bookmark whose message was found is added or replaced with what is indexed of the message,
/// whatever the message. Where it was not found, nothing is done.
pub proof fn law_bookmark_is_settled_with_its_message(
    event: Box<OriginalSyncBookmarkEvent>,
    info: BookmarkPointerInfo,
    message: OriginalSyncRoomMessageEvent,
    content: IndexedBookmarkContent,
    added: Option<BookmarkIndexOperation>,
    edited: Option<BookmarkIndexOperation>,
    not_added: Option<BookmarkIndexOperation>,
    not_edited: Option<BookmarkIndexOperation>,
)
    requires
        call_ensures(IndexedBookmarkContent::of_message, (&message,), content),
        call_ensures(Goal::settle, (Goal::Add(event), Some(message)), added),
        call_ensures(Goal::settle, (Goal::Edit(info), Some(message)), edited),
        call_ensures(
            Goal::settle,
            (Goal::Add(event), None::<OriginalSyncRoomMessageEvent>),
            not_added,
        ),
        call_ensures(
            Goal::settle,
            (Goal::Edit(info), None::<OriginalSyncRoomMessageEvent>),
            not_edited,
        ),
    ensures
        added == Some(BookmarkIndexOperation::Add(event, content)),
        edited == Some(BookmarkIndexOperation::Edit(info, content)),
        not_added is None,
        not_edited == Some(BookmarkIndexOperation::Noop),
{
}

/// A lookup goes on in the cache of the room where that was opened, fetches what the cache does not
/// have, and ends with what becomes of the bookmark given the current version of what was found.
pub proof fn law_lookup_ends_with_what_was_found(
    lookup: Lookup,
    relations: Relations,
    message: Option<OriginalSyncRoomMessageEvent>,
    with_message: Option<BookmarkIndexOperation>,
    without: Option<BookmarkIndexOperation>,
    opened: Step,
    not_opened: Step,
    cached: Step,
    not_cached: Step,
    fetched: Step,
    not_fetched: Step,
)
    requires
        call_ensures(get_most_recent_timeline_event_edit, (relations,), message),
        call_ensures(Goal::settle, (lookup.goal, message), with_message),
        call_ensures(
            Goal::settle,
            (lookup.goal, None::<OriginalSyncRoomMessageEvent>),
            without,
        ),
        call_ensures(Lookup::cache_opened, (lookup, true), opened),
        call_ensures(Lookup::cache_opened, (lookup, false), not_opened),
        call_ensures(Lookup::found_in_cache, (lookup, Some(relations)), cached),
        call_ensures(Lookup::found_in_cache, (lookup, None::<Relations>), not_cached),
        call_ensures(Lookup::fetched, (lookup, Some(relations)), fetched),
        call_ensures(Lookup::fetched, (lookup, None::<Relations>), not_fetched),
    ensures
        opened == Step::FindInCache(lookup),
        not_opened == Step::Finish(without),
        cached == Step::Finish(with_message),
        not_cached == Step::Fetch(lookup),
        fetched == Step::Finish(with_message),
        not_fetched == Step::Finish(without),
{
}

/// A bookmark event that is no edit leads to the lookup of the event that it points at, to be added. An
/// edit leads to the lookup of the event that its new version points at, to be replaced.
pub proof fn law_bookmark_event_leads_to_its_target(
    event: OriginalSyncBookmarkEvent,
    info: BookmarkPointerInfo,
    edit: Option<Step>,
    step: Step,
    parsed: Step,
)
    requires
        call_ensures(BookmarkPointerInfo::of_event, (&event,), info),
        call_ensures(handle_possible_edit, (&event,), edit),
        call_ensures(handle_sync_bookmark, (SyncBookmarkEvent::Original(event),), step),
        call_ensures(
            parse_bookmarks_room_event,
            (BookmarksRoomEvent::Bookmark(SyncBookmarkEvent::Original(event)),),
            parsed,
        ),
    ensures
        parsed == step,
        edit is Some <==> (event.content.relates_to matches Some(relation)
            && relation is Replacement),
        edit matches Some(found) ==> found == step,
        step matches Step::OpenCache(lookup) && {
            &&& lookup.room_id == info.target_room_id
            &&& lookup.event_id == info.target_event_id
            &&& match event.content.relates_to {
                Some(Relation::Replacement(replacement)) => {
                    &&& lookup.goal == Goal::Edit(info)
                    &&& lookup.room_id == replacement.new_pointer.room_id
                    &&& lookup.event_id == replacement.new_pointer.event_id
                },
                Some(Relation::Other) | None => {
                    &&& lookup.goal == Goal::Add(Box::new(event))
                    &&& lookup.room_id == event.content.pointer.room_id
                    &&& lookup.event_id == event.content.pointer.event_id
                },
            }
        },
{
}

/// A bookmark that was redacted is removed, as is one whose redaction comes later. What is redacted but
/// no bookmark is left alone.
pub proof fn law_redacted_bookmark_is_removed(
    event_id: EventId,
    bookmark: OriginalSyncBookmarkEvent,
    redacted: Step,
    parsed: Step,
    redaction: Step,
    of_bookmark: Step,
    of_redacted: Step,
    of_nothing: Step,
)
    requires
        call_ensures(handle_sync_bookmark, (SyncBookmarkEvent::Redacted(event_id),), redacted),
        call_ensures(
            parse_bookmarks_room_event,
            (BookmarksRoomEvent::Bookmark(SyncBookmarkEvent::Redacted(event_id)),),
            parsed,
        ),
        call_ensures(
            parse_bookmarks_room_event,
            (BookmarksRoomEvent::Redaction(Some(event_id)),),
            redaction,
        ),
        call_ensures(
            handle_bookmark_redaction,
            (Some(SyncBookmarkEvent::Original(bookmark)),),
            of_bookmark,
        ),
        call_ensures(
            handle_bookmark_redaction,
            (Some(SyncBookmarkEvent::Redacted(event_id)),),
            of_redacted,
        ),
        call_ensures(handle_bookmark_redaction, (None::<SyncBookmarkEvent>,), of_nothing),
    ensures
        redacted == Step::Finish(Some(BookmarkIndexOperation::Remove(event_id))),
        parsed == redacted,
        redaction == Step::FindRedacted(event_id),
        of_bookmark == Step::Finish(Some(BookmarkIndexOperation::Remove(bookmark.event_id))),
        of_redacted == Step::Finish(None),
        of_nothing == Step::Finish(None),
{
}

/// Whatever is neither a bookmark nor a redaction of an event leads to nothing.
pub proof fn law_other_events_lead_to_nothing(event: BookmarksRoomEvent, step: Step)
    requires
        call_ensures(parse_bookmarks_room_event, (event,), step),
        !(event is Bookmark),
        !(event matches BookmarksRoomEvent::Redaction(redacted) && redacted is Some),
    ensures
        step == Step::Finish(None),
{
}

// ---------------------------------------------------------------------------------------------
// Operations
// ---------------------------------------------------------------------------------------------

/// Settled operations, in terms of lists.
pub proof fn lemma_settled_operations(operations: Seq<Option<BookmarkIndexOperation>>)
    ensures
        settled_operations(operations).map_values(
            |operation: BookmarkIndexOperation| Some(operation),
        ) == operations.filter(|operation: Option<BookmarkIndexOperation>| operation is Some),
    decreases operations.len(),
{
    reveal(Seq::filter);
    if operations.len() > 0 {
        lemma_settled_operations(operations.drop_last());
    }
}

/// Every operation that was settled is kept, and nothing else, in their order: the operations are those
/// of the list that are there.
pub proof fn law_every_settled_operation_is_kept(
    operations: Vec<Option<BookmarkIndexOperation>>,
    flat: Vec<BookmarkIndexOperation>,
)
    requires
        call_ensures(flatten_operations, (operations,), flat),
    ensures
        flat@.map_values(|operation: BookmarkIndexOperation| Some(operation))
            == operations@.filter(
            |operation: Option<BookmarkIndexOperation>| operation is Some,
        ),
{
    lemma_settled_operations(operations@);
}

/// A list is told by its items, each taken to be there.
pub proof fn lemma_told_by_items(
    one: Seq<BookmarkIndexOperation>,
    other: Seq<BookmarkIndexOperation>,
)
    requires
        one.map_values(|operation: BookmarkIndexOperation| Some(operation)) == other.map_values(
            |operation: BookmarkIndexOperation| Some(operation),
        ),
    ensures
        one == other,
{
    let of_one = one.map_values(|operation: BookmarkIndexOperation| Some(operation));
    let of_other = other.map_values(|operation: BookmarkIndexOperation| Some(operation));
    assert(one.len() == of_one.len() == of_other.len() == other.len());
    assert forall|i: int| 0 <= i < one.len() implies one[i] == other[i] by {
        assert(of_one[i] == of_other[i]);
    }
    assert(one =~= other);
}

} // verus!
