//! What events lead to, from the first step to the operation.

use std::path::PathBuf;

use vstd::prelude::*;

use crate::bookmark::{event_pointer, message_content};
use crate::builder::{next_action, DirectoryAction, DirectoryEvent, DirectoryState};
use crate::engine::is_named;
use crate::error::OpenDirectoryError;
use crate::events::{
    OriginalSyncBookmarkEvent, OriginalSyncRoomMessageEvent, Relation, SyncBookmarkEvent,
};
use crate::handling::{
    after_cache, after_fetch, after_opening, bookmark_step, first_step, message_of, redaction_step,
    BookmarksRoomEvent, Relations, Step,
};
use crate::operation::BookmarkIndexOperation;
use crate::schema::{
    bookmark_fields, bookmark_schema, has_bookmark_fields, lemma_field_names, resolved, SchemaModel,
};

verus! {

/// What the lookups on the way from an event to an operation bring, should they be made.
pub struct Replies {
    /// The event that was redacted, where it is a bookmark.
    pub redacted: Option<SyncBookmarkEvent>,
    /// Whether the cache of the room is opened.
    pub opened: bool,
    /// What the cache has of the event.
    pub cached: Option<Relations>,
    /// What is fetched of the event.
    pub fetched: Option<Relations>,
}

/// The step after a given one.
pub open spec fn next_step(step: Step, replies: Replies) -> Step {
    match step {
        Step::Finish(_) => step,
        Step::FindRedacted(_) => redaction_step(replies.redacted),
        Step::OpenCache(lookup) => after_opening(lookup, replies.opened),
        Step::FindInCache(lookup) => after_cache(lookup, replies.cached),
        Step::Fetch(lookup) => after_fetch(lookup, replies.fetched),
    }
}

/// The step after a number of steps.
pub open spec fn step_after(event: BookmarksRoomEvent, replies: Replies, count: nat) -> Step
    decreases count,
{
    if count == 0 {
        first_step(event)
    } else {
        next_step(step_after(event, replies, (count - 1) as nat), replies)
    }
}

/// The message that the lookups bring: without a cache none, and otherwise what the cache has, or what
/// is fetched where the cache has nothing.
pub open spec fn message_found(replies: Replies) -> Option<OriginalSyncRoomMessageEvent> {
    if !replies.opened {
        None
    } else if replies.cached is Some {
        message_of(replies.cached)
    } else {
        message_of(replies.fetched)
    }
}

/// Whether a bookmark event is an edit.
pub open spec fn is_edit(event: OriginalSyncBookmarkEvent) -> bool {
    event.content.relates_to matches Some(relation) && relation is Replacement
}

/// What an edited bookmark leads to: its replacement with the current version of the message, and
/// nothing if there is no such message.
pub open spec fn edit_outcome(event: OriginalSyncBookmarkEvent, replies: Replies) -> Option<
    BookmarkIndexOperation,
> {
    match message_found(replies) {
        Some(message) => Some(
            BookmarkIndexOperation::Edit(event_pointer(event), message_content(message)),
        ),
        None => Some(BookmarkIndexOperation::Noop),
    }
}

/// What an event of the bookmarks room leads to.
pub open spec fn outcome(event: BookmarksRoomEvent, replies: Replies) -> Option<
    BookmarkIndexOperation,
> {
    match event {
        BookmarksRoomEvent::Bookmark(SyncBookmarkEvent::Original(bookmark)) => if is_edit(
            bookmark,
        ) {
            edit_outcome(bookmark, replies)
        } else {
            match message_found(replies) {
                Some(message) => Some(
                    BookmarkIndexOperation::Add(Box::new(bookmark), message_content(message)),
                ),
                None => None,
            }
        },
        BookmarksRoomEvent::Bookmark(SyncBookmarkEvent::Redacted(event_id)) => Some(
            BookmarkIndexOperation::Remove(event_id),
        ),
        BookmarksRoomEvent::Redaction(Some(_)) => match replies.redacted {
            Some(SyncBookmarkEvent::Original(bookmark)) => Some(
                BookmarkIndexOperation::Remove(bookmark.event_id),
            ),
            _ => None,
        },
        _ => None,
    }
}

/// The event whose current version is indexed for a bookmark, by its room and its id, is the one that
/// the bookmark points at, also where the bookmark was edited.
pub proof fn law_bookmarked_event_is_looked_up(event: OriginalSyncBookmarkEvent)
    ensures
        bookmark_step(SyncBookmarkEvent::Original(event)) matches Step::OpenCache(lookup)
            && lookup.room_id == event_pointer(event).target_room_id && lookup.event_id
            == event_pointer(event).target_event_id,
{
}

/// A redaction leads to a removal or to nothing.
pub proof fn law_redactions_only_remove(redacted: Option<SyncBookmarkEvent>)
    ensures
        redaction_step(redacted) matches Step::Finish(operation) && (
        operation matches Some(found) ==> found is Remove),
{
}

/// Every event of the bookmarks room leads, after at most four lookups, to what it should.
pub proof fn law_events_are_settled(event: BookmarksRoomEvent, replies: Replies)
    ensures
        step_after(event, replies, 4) == Step::Finish(outcome(event, replies)),
{
    reveal_with_fuel(step_after, 5);
}

/// Once an event is settled it stays so.
pub proof fn law_settled_events_stay_settled(event: BookmarksRoomEvent, replies: Replies, more: nat)
    ensures
        step_after(event, replies, 4 + more) == Step::Finish(outcome(event, replies)),
    decreases more,
{
    if more == 0 {
        law_events_are_settled(event, replies);
    } else {
        law_settled_events_stay_settled(event, replies, (more - 1) as nat);
        assert((4 + more - 1) as nat == 4 + (more - 1) as nat);
    }
}

/// What is indexed of an event is its most recent edit, or the event itself if it has none.
pub proof fn law_most_recent_edit_counts(relations: Relations)
    ensures
        relations.related@.len() > 0 ==> message_of(Some(relations)) == relations.related@.last(),
        relations.related@.len() == 0 ==> message_of(Some(relations)) == relations.original,
{
}

/// A bookmark is identified by its event, and by the first version of its event, which is another one
/// only if it is an edit.
pub proof fn law_only_edits_have_another_original(event: OriginalSyncBookmarkEvent)
    ensures
        event_pointer(event).event_id == event.event_id,
        !is_edit(event) ==> event_pointer(event).original_event_id == event.event_id,
        event.content.relates_to matches Some(Relation::Replacement(replacement))
            ==> event_pointer(event).original_event_id == replacement.event_id,
{
}

/// A directory is created at most once: it is created only before it was, and once it was it is opened
/// or given up. Where it cannot be created the error names it.
pub proof fn law_directory_is_created_at_most_once(
    directory: PathBuf,
    state: DirectoryState,
    event: DirectoryEvent,
)
    ensures
        next_action(directory, state, event).1 is Create ==> state is First,
        event is Created ==> next_action(directory, state, event).0 is Second,
        state is Second ==> next_action(directory, state, event).0 is Second,
        event matches DirectoryEvent::NotOpened(error) ==> state is Second ==> next_action(
            directory,
            state,
            event,
        ).1 == DirectoryAction::Fail(error),
        event matches DirectoryEvent::NotCreated(reason) ==> next_action(
            directory,
            state,
            event,
        ).1 matches DirectoryAction::Fail(OpenDirectoryError::IoError {
            directory_path,
            ..
        }) && directory_path == directory,
{
}

/// A bookmark schema read back from the fields of a new one is a new one.
pub proof fn law_schema_reads_back(model: SchemaModel)
    requires
        model.fields == bookmark_fields(),
        resolved(model),
    ensures
        model == bookmark_schema(),
{
    lemma_field_names();
    let fields = bookmark_fields();
    assert(fields[0].name == "event_id"@);
    assert(fields[1].name == "original_event_id"@);
    assert(fields[2].name == "target_event_id"@);
    assert(fields[3].name == "target_room_id"@);
    assert(fields[4].name == "body"@);
    assert(fields[5].name == "date"@);
    assert(fields[6].name == "sender"@);
    assert(model.event_id == 0);
    assert(model.original_event_id == 1);
    assert(model.target_event_id == 2);
    assert(model.target_room_id == 3);
    assert(model.body == 4);
    assert(model.date == 5);
    assert(model.sender == 6);
    assert(model.default_search_fields =~= seq![4u32]);
}

/// The fields of a new bookmark schema are those that reading one back asks for.
pub proof fn law_new_schema_can_be_read_back()
    ensures
        has_bookmark_fields(bookmark_fields()),
{
    let fields = bookmark_fields();
    assert(is_named(fields, 0, "event_id"@));
    assert(is_named(fields, 1, "original_event_id"@));
    assert(is_named(fields, 2, "target_event_id"@));
    assert(is_named(fields, 3, "target_room_id"@));
    assert(is_named(fields, 4, "body"@));
    assert(is_named(fields, 5, "date"@));
    assert(is_named(fields, 6, "sender"@));
}

} // verus!
