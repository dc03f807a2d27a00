//! Operations on the bookmark index, and where they come from.

use vstd::prelude::*;

use crate::bookmark::{event_pointer, message_content, BookmarkPointerInfo, IndexedBookmarkContent};
use crate::events::{OriginalSyncBookmarkEvent, OriginalSyncRoomMessageEvent};
use crate::ids::EventId;
use crate::model::Operation;

verus! {

/// The operations on a bookmark index.
#[derive(Debug)]
pub enum BookmarkIndexOperation {
    /// Add this bookmark to the index.
    Add(Box<OriginalSyncBookmarkEvent>, IndexedBookmarkContent),
    /// Remove all documents whose deletion key is this event id.
    Remove(EventId),
    /// Remove all documents whose target is this event id.
    RemoveWithTargetEventId(EventId),
    /// Replace all documents whose deletion key is the first version of this bookmark.
    Edit(BookmarkPointerInfo, IndexedBookmarkContent),
    /// Replace all documents whose target is this event id.
    EditWithTargetEventId(EventId, IndexedBookmarkContent),
    /// Do nothing.
    Noop,
}

impl View for BookmarkIndexOperation {
    type V = Operation;

    open spec fn view(&self) -> Operation {
        match *self {
            BookmarkIndexOperation::Add(event, content) => Operation::Add(
                event_pointer(*event)@,
                content@,
            ),
            BookmarkIndexOperation::Remove(event_id) => Operation::Remove(event_id@),
            BookmarkIndexOperation::RemoveWithTargetEventId(
                target,
            ) => Operation::RemoveWithTargetEventId(target@),
            BookmarkIndexOperation::Edit(info, content) => Operation::Edit(info@, content@),
            BookmarkIndexOperation::EditWithTargetEventId(
                target,
                content,
            ) => Operation::EditWithTargetEventId(target@, content@),
            BookmarkIndexOperation::Noop => Operation::Noop,
        }
    }
}

/// The operations on the index of a room's messages.
#[derive(Debug)]
pub enum RoomIndexOperation {
    /// Add this message.
    Add(OriginalSyncRoomMessageEvent),
    /// Remove all documents of this event.
    Remove(EventId),
    /// Replace all documents of this event by this message.
    Edit(EventId, OriginalSyncRoomMessageEvent),
    /// Do nothing.
    Noop,
}

/// The operation on the bookmark index that follows from one on the index of a room: bookmarks of an
/// event follow its edits and its removal.
pub open spec fn derived_operation(operation: RoomIndexOperation) -> Option<Operation> {
    match operation {
        RoomIndexOperation::Edit(event_id, message) => Some(
            Operation::EditWithTargetEventId(event_id@, message_content(message)@),
        ),
        RoomIndexOperation::Remove(event_id) => Some(
            Operation::RemoveWithTargetEventId(event_id@),
        ),
        RoomIndexOperation::Add(_) | RoomIndexOperation::Noop => None,
    }
}

/// Returns an operation if an event has been edited or removed in a room. Whether the event is
/// bookmarked is left to the bookmark index.
pub fn derive_bookmark_operation_from_regular_index_operation(operation: &RoomIndexOperation) -> (
derived: Option<BookmarkIndexOperation>)
    ensures
        match derived {
            Some(bookmark_operation) => derived_operation(*operation) == Some(bookmark_operation@),
            None => derived_operation(*operation) is None,
        },
{
    match operation {
        RoomIndexOperation::Edit(event_id, new_content) => Some(
            BookmarkIndexOperation::EditWithTargetEventId(
                event_id.clone(),
                IndexedBookmarkContent::of_message(new_content),
            ),
        ),
        RoomIndexOperation::Remove(event_id) => Some(
            BookmarkIndexOperation::RemoveWithTargetEventId(event_id.clone()),
        ),
        RoomIndexOperation::Add(_) | RoomIndexOperation::Noop => None,
    }
}

} // verus!
