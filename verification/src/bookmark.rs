//! Bookmarks: what is indexed of them and what a search hands back.

use vstd::prelude::*;

use crate::events::{
    message_body, OriginalSyncBookmarkEvent, OriginalSyncRoomMessageEvent, Relation,
};
use crate::ids::{
    is_event_id, is_room_id, EventId, MilliSecondsSinceUnixEpoch, RoomId, Score, UserId,
};

verus! {

/// The four ids that identify a bookmark.
#[verifier::ext_equal]
pub struct Pointer {
    pub event_id: Seq<char>,
    pub original_event_id: Seq<char>,
    pub target_event_id: Seq<char>,
    pub target_room_id: Seq<char>,
}

/// Whether the four ids are valid ids.
pub open spec fn valid_pointer(pointer: Pointer) -> bool {
    &&& is_event_id(pointer.event_id)
    &&& is_event_id(pointer.original_event_id)
    &&& is_event_id(pointer.target_event_id)
    &&& is_room_id(pointer.target_room_id)
}

/// What is indexed of a bookmarked event.
#[verifier::ext_equal]
pub struct Content {
    pub body: Option<Seq<char>>,
    /// When the event was sent, in milliseconds since the Unix epoch.
    pub date: int,
    pub sender: Seq<char>,
}

/// A bookmark that a search found, with its score.
#[verifier::ext_equal]
pub struct Found {
    pub pointer: Pointer,
    pub score: u32,
}

/// Necessary information to identify a unique bookmark.
#[derive(Debug, PartialEq)]
pub struct BookmarkPointerInfo {
    /// The id of the bookmark event.
    pub event_id: EventId,
    /// The id of the bookmark event, or of the event it replaces if it is an edit.
    pub original_event_id: EventId,
    /// The room of the bookmarked event.
    pub target_room_id: RoomId,
    /// The id of the bookmarked event.
    pub target_event_id: EventId,
}

impl View for BookmarkPointerInfo {
    type V = Pointer;

    open spec fn view(&self) -> Pointer {
        Pointer {
            event_id: self.event_id@,
            original_event_id: self.original_event_id@,
            target_event_id: self.target_event_id@,
            target_room_id: self.target_room_id@,
        }
    }
}

impl Clone for BookmarkPointerInfo {
    fn clone(&self) -> (copy: BookmarkPointerInfo)
        ensures
            copy == *self,
    {
        BookmarkPointerInfo {
            event_id: self.event_id.clone(),
            original_event_id: self.original_event_id.clone(),
            target_room_id: self.target_room_id.clone(),
            target_event_id: self.target_event_id.clone(),
        }
    }
}

/// What a bookmark event identifies: an edit stands for the event it replaces and points where its
/// new version points.
pub open spec fn event_pointer(event: OriginalSyncBookmarkEvent) -> BookmarkPointerInfo {
    match event.content.relates_to {
        Some(Relation::Replacement(replacement)) => BookmarkPointerInfo {
            event_id: event.event_id,
            original_event_id: replacement.event_id,
            target_event_id: replacement.new_pointer.event_id,
            target_room_id: replacement.new_pointer.room_id,
        },
        _ => BookmarkPointerInfo {
            event_id: event.event_id,
            original_event_id: event.event_id,
            target_event_id: event.content.pointer.event_id,
            target_room_id: event.content.pointer.room_id,
        },
    }
}

impl From<OriginalSyncBookmarkEvent> for BookmarkPointerInfo {
    fn from(value: OriginalSyncBookmarkEvent) -> (info: BookmarkPointerInfo) {
        BookmarkPointerInfo::of_event(&value)
    }
}

impl vstd::std_specs::convert::FromSpecImpl<OriginalSyncBookmarkEvent> for BookmarkPointerInfo {
    open spec fn obeys_from_spec() -> bool {
        true
    }

    open spec fn from_spec(value: OriginalSyncBookmarkEvent) -> BookmarkPointerInfo {
        event_pointer(value)
    }
}

impl BookmarkPointerInfo {
    /// What a bookmark event identifies.
    pub fn of_event(event: &OriginalSyncBookmarkEvent) -> (info: BookmarkPointerInfo)
        ensures
            info == event_pointer(*event),
    {
        match &event.content.relates_to {
            Some(Relation::Replacement(replacement)) => BookmarkPointerInfo {
                event_id: event.event_id.clone(),
                original_event_id: replacement.event_id.clone(),
                target_event_id: replacement.new_pointer.event_id.clone(),
                target_room_id: replacement.new_pointer.room_id.clone(),
            },
            _ => BookmarkPointerInfo {
                event_id: event.event_id.clone(),
                original_event_id: event.event_id.clone(),
                target_event_id: event.content.pointer.event_id.clone(),
                target_room_id: event.content.pointer.room_id.clone(),
            },
        }
    }

    /// The id of this bookmark, which is that of its first version.
    pub fn bookmark_id(self) -> (id: EventId)
        ensures
            id@ == self@.original_event_id,
    {
        self.original_event_id
    }
}

/// Representation of the stored fields in the index.
#[derive(Debug)]
pub struct IndexedBookmark {
    /// The id of the current version of the bookmark event.
    pub event_id: EventId,
    /// The id of the first version of the bookmark event.
    pub original_event_id: EventId,
    /// The id of the event targeted by this bookmark.
    pub target_event_id: EventId,
    /// The room in which the bookmarked event lives.
    pub target_room_id: RoomId,
    /// The search score.
    pub score: Score,
}

impl View for IndexedBookmark {
    type V = Found;

    open spec fn view(&self) -> Found {
        Found {
            pointer: Pointer {
                event_id: self.event_id@,
                original_event_id: self.original_event_id@,
                target_event_id: self.target_event_id@,
                target_room_id: self.target_room_id@,
            },
            score: self.score.bits,
        }
    }
}

/// What was found, with the scores.
pub open spec fn found_views(bookmarks: Seq<IndexedBookmark>) -> Seq<Found> {
    bookmarks.map_values(|bookmark: IndexedBookmark| bookmark@)
}

/// The bookmark as found, without its score.
pub open spec fn pointer_info(bookmark: IndexedBookmark) -> BookmarkPointerInfo {
    BookmarkPointerInfo {
        event_id: bookmark.event_id,
        original_event_id: bookmark.original_event_id,
        target_room_id: bookmark.target_room_id,
        target_event_id: bookmark.target_event_id,
    }
}

impl IndexedBookmark {
    /// The bookmark as found, without its score.
    pub fn pointer_info(&self) -> (info: BookmarkPointerInfo)
        ensures
            info == pointer_info(*self),
    {
        BookmarkPointerInfo {
            event_id: self.event_id.clone(),
            original_event_id: self.original_event_id.clone(),
            target_room_id: self.target_room_id.clone(),
            target_event_id: self.target_event_id.clone(),
        }
    }
}

impl From<IndexedBookmark> for BookmarkPointerInfo {
    fn from(value: IndexedBookmark) -> (info: BookmarkPointerInfo) {
        value.pointer_info()
    }
}

impl vstd::std_specs::convert::FromSpecImpl<IndexedBookmark> for BookmarkPointerInfo {
    open spec fn obeys_from_spec() -> bool {
        true
    }

    open spec fn from_spec(value: IndexedBookmark) -> BookmarkPointerInfo {
        pointer_info(value)
    }
}

/// The fields of the bookmarked event that are indexed.
#[derive(Debug)]
pub struct IndexedBookmarkContent {
    /// Plain text of the bookmarked event, if it has any that is suitable.
    pub body: Option<String>,
    /// When the bookmarked event was sent.
    pub date: MilliSecondsSinceUnixEpoch,
    /// The sender of the bookmarked event.
    pub sender: UserId,
}

impl View for IndexedBookmarkContent {
    type V = Content;

    open spec fn view(&self) -> Content {
        Content {
            body: match self.body {
                Some(body) => Some(body@),
                None => None,
            },
            date: self.date@,
            sender: self.sender@,
        }
    }
}

impl Clone for IndexedBookmarkContent {
    fn clone(&self) -> (copy: IndexedBookmarkContent)
        ensures
            copy == *self,
    {
        let body = match &self.body {
            Some(body) => Some(body.clone()),
            None => None,
        };
        IndexedBookmarkContent { body, date: self.date, sender: self.sender.clone() }
    }
}

/// What is indexed of a message.
pub open spec fn message_content(message: OriginalSyncRoomMessageEvent) -> IndexedBookmarkContent {
    IndexedBookmarkContent {
        body: message_body(message.msgtype),
        date: message.origin_server_ts,
        sender: message.sender,
    }
}

impl From<OriginalSyncRoomMessageEvent> for IndexedBookmarkContent {
    fn from(value: OriginalSyncRoomMessageEvent) -> (content: IndexedBookmarkContent) {
        IndexedBookmarkContent::of_message(&value)
    }
}

impl vstd::std_specs::convert::FromSpecImpl<OriginalSyncRoomMessageEvent> for IndexedBookmarkContent {
    open spec fn obeys_from_spec() -> bool {
        true
    }

    open spec fn from_spec(value: OriginalSyncRoomMessageEvent) -> IndexedBookmarkContent {
        message_content(value)
    }
}

impl IndexedBookmarkContent {
    /// Content with the given fields.
    pub fn new(body: Option<String>, date: MilliSecondsSinceUnixEpoch, sender: UserId) -> (content:
        IndexedBookmarkContent)
        ensures
            content.body == body,
            content.date == date,
            content.sender == sender,
    {
        IndexedBookmarkContent { body, date, sender }
    }

    /// What is indexed of a message.
    pub fn of_message(message: &OriginalSyncRoomMessageEvent) -> (content: IndexedBookmarkContent)
        ensures
            content == message_content(*message),
    {
        IndexedBookmarkContent {
            body: message.msgtype.body(),
            date: message.origin_server_ts,
            sender: message.sender.clone(),
        }
    }
}

} // verus!
