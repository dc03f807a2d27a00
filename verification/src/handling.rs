//! What the events of the bookmarks room mean for the index.
//!
//! An event of the room leads to an operation on the index, but on the way there events of other
//! rooms may have to be looked up. Each function of this file takes what a lookup brought and says
//! what to do next, until an operation, or none, is settled.

use vstd::prelude::*;

use crate::bookmark::{event_pointer, message_content, BookmarkPointerInfo, IndexedBookmarkContent};
use crate::error::IndexError;
use crate::events::{
    OriginalSyncBookmarkEvent, OriginalSyncRoomMessageEvent, Relation, SyncBookmarkEvent,
};
use crate::execute::{
    bulk_outcome, execute_outcome, operation_views, tried_in_one_go, tried_on_its_own,
};
use crate::guard::{opened_if_needed, start_error, starts_from, BookmarkIndexGuard};
use crate::ids::{EventId, RoomId};
use crate::index::BookmarkIndex;
use crate::operation::BookmarkIndexOperation;
use crate::search::{current, latest_version};

verus! {

/// An event of the bookmarks room.
#[derive(Debug)]
pub enum BookmarksRoomEvent {
    /// It could not be decrypted.
    Undecryptable,
    /// It could not be read.
    Unreadable,
    /// A bookmark.
    Bookmark(SyncBookmarkEvent),
    /// A redaction of the given event, if it redacts one.
    Redaction(Option<EventId>),
    /// Any other event.
    Other,
}

/// An event and its replacements, oldest first. An event is given where it is a message that has not
/// been redacted.
#[derive(Debug)]
pub struct Relations {
    pub original: Option<OriginalSyncRoomMessageEvent>,
    pub related: Vec<Option<OriginalSyncRoomMessageEvent>>,
}

/// What is to become of a bookmark once the bookmarked event is known.
#[derive(Debug)]
pub enum Goal {
    /// It is added.
    Add(Box<OriginalSyncBookmarkEvent>),
    /// It is replaced.
    Edit(BookmarkPointerInfo),
}

/// A lookup of the current version of an event.
#[derive(Debug)]
pub struct Lookup {
    pub goal: Goal,
    pub room_id: RoomId,
    pub event_id: EventId,
}

/// What to do next.
#[derive(Debug)]
pub enum Step {
    /// Execute the operation, if there is one.
    Finish(Option<BookmarkIndexOperation>),
    /// Look up an event that was redacted, in the cache of the bookmarks room.
    FindRedacted(EventId),
    /// Open the cache of the room of the lookup.
    OpenCache(Lookup),
    /// Look the event up in the cache of its room.
    FindInCache(Lookup),
    /// Load the event from its room, or fetch it.
    Fetch(Lookup),
}

/// The current version of an event: its last replacement, or the event itself where it has none, if
/// that is a message that has not been redacted.
pub fn get_most_recent_timeline_event_edit(relations: Relations) -> (message: Option<
    OriginalSyncRoomMessageEvent,
>)
    ensures
        message == current(relations.original, relations.related@),
{
    latest_version(relations.original, relations.related)
}

/// The operation for a bookmark, given the bookmarked message if it was found. A new bookmark of an
/// event that was not found is left alone, and so is, by an operation that does nothing, an edited
/// one.
pub open spec fn settled(goal: Goal, message: Option<OriginalSyncRoomMessageEvent>) -> Option<
    BookmarkIndexOperation,
> {
    match (goal, message) {
        (Goal::Add(event), Some(message)) => Some(
            BookmarkIndexOperation::Add(event, message_content(message)),
        ),
        (Goal::Edit(info), Some(message)) => Some(
            BookmarkIndexOperation::Edit(info, message_content(message)),
        ),
        (Goal::Add(_), None) => None,
        (Goal::Edit(_), None) => Some(BookmarkIndexOperation::Noop),
    }
}

impl Goal {
    /// The operation for a bookmark, given the bookmarked message if it was found.
    pub fn settle(self, message: Option<OriginalSyncRoomMessageEvent>) -> (operation: Option<
        BookmarkIndexOperation,
    >)
        ensures
            operation == settled(self, message),
    {
        match (self, message) {
            (Goal::Add(event), Some(message)) => Some(
                BookmarkIndexOperation::Add(event, IndexedBookmarkContent::of_message(&message)),
            ),
            (Goal::Edit(info), Some(message)) => Some(
                BookmarkIndexOperation::Edit(info, IndexedBookmarkContent::of_message(&message)),
            ),
            (Goal::Add(_), None) => None,
            (Goal::Edit(_), None) => Some(BookmarkIndexOperation::Noop),
        }
    }
}

/// The message that a lookup brought, if any.
pub open spec fn message_of(found: Option<Relations>) -> Option<OriginalSyncRoomMessageEvent> {
    match found {
        Some(relations) => current(relations.original, relations.related@),
        None => None,
    }
}

/// What follows from whether the cache of the room was opened: without a cache nothing is looked up.
pub open spec fn after_opening(lookup: Lookup, opened: bool) -> Step {
    if opened {
        Step::FindInCache(lookup)
    } else {
        Step::Finish(settled(lookup.goal, None))
    }
}

/// What follows from a lookup in the cache: what is not there is fetched.
pub open spec fn after_cache(lookup: Lookup, found: Option<Relations>) -> Step {
    match found {
        Some(relations) => Step::Finish(settled(lookup.goal, message_of(found))),
        None => Step::Fetch(lookup),
    }
}

/// What follows from a fetch.
pub open spec fn after_fetch(lookup: Lookup, found: Option<Relations>) -> Step {
    Step::Finish(settled(lookup.goal, message_of(found)))
}

impl Lookup {
    /// What to do next, once it is known whether the cache of the room was opened.
    pub fn cache_opened(self, opened: bool) -> (step: Step)
        ensures
            step == after_opening(self, opened),
    {
        if opened {
            Step::FindInCache(self)
        } else {
            Step::Finish(self.goal.settle(None))
        }
    }

    /// What to do next, once the event was looked up in the cache.
    pub fn found_in_cache(self, found: Option<Relations>) -> (step: Step)
        ensures
            step == after_cache(self, found),
    {
        match found {
            Some(relations) => {
                let message = get_most_recent_timeline_event_edit(relations);
                Step::Finish(self.goal.settle(message))
            },
            None => Step::Fetch(self),
        }
    }

    /// What to do next, once the event was loaded or fetched, or could not be.
    pub fn fetched(self, found: Option<Relations>) -> (step: Step)
        ensures
            step == after_fetch(self, found),
    {
        match found {
            Some(relations) => {
                let message = get_most_recent_timeline_event_edit(relations);
                Step::Finish(self.goal.settle(message))
            },
            None => Step::Finish(self.goal.settle(None)),
        }
    }
}

/// What an edit of a bookmark leads to: the lookup of the event that its new version points at.
pub open spec fn replacement_step(event: OriginalSyncBookmarkEvent) -> Option<Step> {
    match event.content.relates_to {
        Some(Relation::Replacement(replacement)) => Some(
            Step::OpenCache(
                Lookup {
                    goal: Goal::Edit(event_pointer(event)),
                    room_id: replacement.new_pointer.room_id,
                    event_id: replacement.new_pointer.event_id,
                },
            ),
        ),
        _ => None,
    }
}

/// What to do about a bookmark event if it is an edit.
pub fn handle_possible_edit(event: &OriginalSyncBookmarkEvent) -> (step: Option<Step>)
    ensures
        step == replacement_step(*event),
{
    match &event.content.relates_to {
        Some(Relation::Replacement(replacement)) => Some(
            Step::OpenCache(
                Lookup {
                    goal: Goal::Edit(BookmarkPointerInfo::of_event(event)),
                    room_id: replacement.new_pointer.room_id.clone(),
                    event_id: replacement.new_pointer.event_id.clone(),
                },
            ),
        ),
        _ => None,
    }
}

/// What a bookmark event leads to: an edit to what edits lead to, any other bookmark to the lookup of
/// the bookmarked event, and a redacted one to its removal.
pub open spec fn bookmark_step(event: SyncBookmarkEvent) -> Step {
    match event {
        SyncBookmarkEvent::Original(bookmark) => match replacement_step(bookmark) {
            Some(step) => step,
            None => Step::OpenCache(
                Lookup {
                    goal: Goal::Add(Box::new(bookmark)),
                    room_id: bookmark.content.pointer.room_id,
                    event_id: bookmark.content.pointer.event_id,
                },
            ),
        },
        SyncBookmarkEvent::Redacted(event_id) => Step::Finish(
            Some(BookmarkIndexOperation::Remove(event_id)),
        ),
    }
}

/// What to do about a bookmark event.
pub fn handle_sync_bookmark(event: SyncBookmarkEvent) -> (step: Step)
    ensures
        step == bookmark_step(event),
{
    match event {
        SyncBookmarkEvent::Original(bookmark) => match handle_possible_edit(&bookmark) {
            Some(step) => step,
            None => {
                let room_id = bookmark.content.pointer.room_id.clone();
                let event_id = bookmark.content.pointer.event_id.clone();
                Step::OpenCache(Lookup { goal: Goal::Add(Box::new(bookmark)), room_id, event_id })
            },
        },
        SyncBookmarkEvent::Redacted(event_id) => Step::Finish(
            Some(BookmarkIndexOperation::Remove(event_id)),
        ),
    }
}

/// What the redaction of an event leads to: that of a bookmark event that was not redacted before to
/// its removal, and that of anything else to nothing.
pub open spec fn redaction_step(redacted: Option<SyncBookmarkEvent>) -> Step {
    match redacted {
        Some(SyncBookmarkEvent::Original(bookmark)) => Step::Finish(
            Some(BookmarkIndexOperation::Remove(bookmark.event_id)),
        ),
        _ => Step::Finish(None),
    }
}

/// What to do about a redaction, given the redacted event where the cache of the bookmarks room has
/// it and it is a bookmark.
pub fn handle_bookmark_redaction(redacted: Option<SyncBookmarkEvent>) -> (step: Step)
    ensures
        step == redaction_step(redacted),
{
    match redacted {
        Some(SyncBookmarkEvent::Original(bookmark)) => Step::Finish(
            Some(BookmarkIndexOperation::Remove(bookmark.event_id)),
        ),
        _ => Step::Finish(None),
    }
}

/// What an event of the bookmarks room leads to.
pub open spec fn first_step(event: BookmarksRoomEvent) -> Step {
    match event {
        BookmarksRoomEvent::Bookmark(bookmark) => bookmark_step(bookmark),
        BookmarksRoomEvent::Redaction(Some(redacted)) => Step::FindRedacted(redacted),
        _ => Step::Finish(None),
    }
}

/// What to do about an event of the bookmarks room.
pub fn parse_bookmarks_room_event(event: BookmarksRoomEvent) -> (step: Step)
    ensures
        step == first_step(event),
{
    match event {
        BookmarksRoomEvent::Bookmark(bookmark) => handle_sync_bookmark(bookmark),
        BookmarksRoomEvent::Redaction(Some(redacted)) => Step::FindRedacted(redacted),
        BookmarksRoomEvent::Redaction(None)
        | BookmarksRoomEvent::Undecryptable
        | BookmarksRoomEvent::Unreadable
        | BookmarksRoomEvent::Other => Step::Finish(None),
    }
}

/// The operations that were settled, in their order.
pub open spec fn settled_operations(operations: Seq<Option<BookmarkIndexOperation>>) -> Seq<
    BookmarkIndexOperation,
>
    decreases operations.len(),
{
    if operations.len() == 0 {
        Seq::empty()
    } else {
        let before = settled_operations(operations.drop_last());
        match operations.last() {
            Some(operation) => before.push(operation),
            None => before,
        }
    }
}

/// The operations that were settled, in their order.
pub fn flatten_operations(operations: Vec<Option<BookmarkIndexOperation>>) -> (flat: Vec<
    BookmarkIndexOperation,
>)
    ensures
        flat@ == settled_operations(operations@),
{
    let ghost all = operations@;
    let mut flat: Vec<BookmarkIndexOperation> = Vec::new();
    assert(all.take(0) =~= Seq::empty());
    for operation in pending: operations.into_iter()
        invariant
            pending.seq() == all,
            flat@ == settled_operations(all.take(pending.index() as int)),
    {
        let ghost k = pending.index() as int;
        assert(all.take(k + 1).drop_last() =~= all.take(k));
        assert(all.take(k + 1).last() == operation);
        if let Some(operation) = operation {
            flat.push(operation);
        }
    }
    assert(all.take(all.len() as int) =~= all);
    flat
}

impl BookmarkIndexGuard {
    /// Executes the operation that an event of the bookmarks room led to, if it led to one.
    ///
    /// Prefer `bulk_handle_bookmark_event` for multiple events.
    pub fn handle_bookmark_event(
        &mut self,
        opened: Option<Result<BookmarkIndex, IndexError>>,
        operation: Option<BookmarkIndexOperation>,
    ) -> (handled: Result<(), IndexError>)
        requires
            old(self).wf(),
            operation is Some ==> opened_if_needed(old(self).index(), old(self).kind(), opened),
        ensures
            final(self).wf(),
            final(self).kind() == old(self).kind(),
            match operation {
                None => {
                    &&& handled == Ok::<(), IndexError>(())
                    &&& final(self).index() == old(self).index()
                },
                Some(operation) => match start_error(old(self).index(), old(self).kind(), opened) {
                    Some(error) => {
                        &&& handled == Err::<(), IndexError>(error)
                        &&& final(self).index() is None
                    },
                    None => exists|start: BookmarkIndex|
                        {
                            &&& #[trigger] starts_from(
                                old(self).index(),
                                old(self).kind(),
                                opened,
                                start,
                            )
                            &&& final(self).index() matches Some(index) && execute_outcome(
                                start@,
                                operation@,
                                handled,
                                index@,
                            ) && tried_on_its_own(start, index, handled)
                        },
                },
            },
    {
        match operation {
            Some(operation) => self.execute(opened, operation),
            None => Ok(()),
        }
    }

    /// Executes, in one go, the operations that events of the bookmarks room led to.
    pub fn bulk_handle_bookmark_event(
        &mut self,
        opened: Option<Result<BookmarkIndex, IndexError>>,
        operations: Vec<Option<BookmarkIndexOperation>>,
    ) -> (handled: Result<(), IndexError>)
        requires
            old(self).wf(),
            opened_if_needed(old(self).index(), old(self).kind(), opened),
        ensures
            final(self).wf(),
            final(self).kind() == old(self).kind(),
            match start_error(old(self).index(), old(self).kind(), opened) {
                Some(error) => {
                    &&& handled == Err::<(), IndexError>(error)
                    &&& final(self).index() is None
                },
                None => exists|start: BookmarkIndex|
                    {
                        &&& #[trigger] starts_from(
                            old(self).index(),
                            old(self).kind(),
                            opened,
                            start,
                        )
                        &&& final(self).index() matches Some(index) && bulk_outcome(
                            start@,
                            operation_views(settled_operations(operations@)),
                            handled,
                            index@,
                        ) && tried_in_one_go(
                            start,
                            index,
                            settled_operations(operations@).len() as int,
                            handled,
                        )
                    },
            },
    {
        self.bulk_execute(opened, flatten_operations(operations))
    }
}

} // verus!
