//! The room events that bookmarks come from, as plain values.

use vstd::prelude::*;

use crate::ids::{EventId, MilliSecondsSinceUnixEpoch, RoomId, UserId};

verus! {

/// Where a bookmarked event is: its room, its id, and servers that know the room.
#[derive(Debug)]
pub struct PointerContentBlock {
    pub room_id: RoomId,
    pub event_id: EventId,
    pub via: Vec<String>,
}

/// The new version of a bookmark that an edit brings.
#[derive(Debug)]
pub struct Replacement {
    /// The event that is replaced.
    pub event_id: EventId,
    /// Where the new version points.
    pub new_pointer: PointerContentBlock,
}

/// How a bookmark event relates to another event.
#[derive(Debug)]
pub enum Relation {
    /// It is an edit of the other event.
    Replacement(Replacement),
    /// It relates to it in some other way.
    Other,
}

/// The content of a bookmark event.
#[derive(Debug)]
pub struct BookmarkEventContent {
    pub pointer: PointerContentBlock,
    /// The name that the sender of the bookmarked event goes by.
    pub sender_display_name: String,
    /// The name that the room of the bookmarked event goes by.
    pub room_display_name: String,
    pub relates_to: Option<Relation>,
}

/// A bookmark event that has not been redacted.
#[derive(Debug)]
pub struct OriginalSyncBookmarkEvent {
    pub event_id: EventId,
    pub content: BookmarkEventContent,
}

/// A bookmark event.
#[derive(Debug)]
pub enum SyncBookmarkEvent {
    Original(OriginalSyncBookmarkEvent),
    /// A redacted event, of which only the id is left.
    Redacted(EventId),
}

/// The redaction of an event. Which event it redacts is said in the content of the redaction or beside
/// it, depending on the version of the room.
#[derive(Debug)]
pub enum RedactionEvent {
    Original {
        /// The event that is given beside the content.
        redacts: Option<EventId>,
        /// The event that is given in the content.
        content_redacts: Option<EventId>,
    },
    /// A redaction that was redacted itself, of which the content may be left.
    Redacted {
        content_redacts: Option<EventId>,
    },
}

/// The event that a redaction redacts: what is given at the place for the version of the room, and
/// otherwise what is given at the other.
pub open spec fn redacted_event(event: RedactionEvent, in_content: bool) -> Option<EventId> {
    match event {
        RedactionEvent::Original { redacts, content_redacts } => {
            let first = if in_content {
                content_redacts
            } else {
                redacts
            };
            let second = if in_content {
                redacts
            } else {
                content_redacts
            };
            if first is Some {
                first
            } else {
                second
            }
        },
        RedactionEvent::Redacted { content_redacts } => content_redacts,
    }
}

impl RedactionEvent {
    /// The event that is redacted, given whether the version of the room has it in the content. A
    /// redaction that was not redacted itself gives the event at one of the two places.
    pub fn redacts(self, in_content: bool) -> (redacted: Option<EventId>)
        requires
            self matches RedactionEvent::Original { redacts, content_redacts } ==> redacts is Some
                || content_redacts is Some,
        ensures
            redacted == redacted_event(self, in_content),
            self is Original ==> redacted is Some,
    {
        match self {
            RedactionEvent::Original { redacts, content_redacts } => {
                let (first, second) = if in_content {
                    (content_redacts, redacts)
                } else {
                    (redacts, content_redacts)
                };
                match first {
                    Some(id) => Some(id),
                    None => second,
                }
            },
            RedactionEvent::Redacted { content_redacts } => content_redacts,
        }
    }
}

/// The text of a message that carries a file.
#[derive(Debug)]
pub struct MediaText {
    pub body: String,
    pub filename: Option<String>,
}

/// The content of a message, as far as its text goes.
#[derive(Debug)]
pub enum MessageType {
    Text(String),
    Notice(String),
    Emote(String),
    Audio(MediaText),
    File(MediaText),
    Image(MediaText),
    Video(MediaText),
    Other,
}

/// A message that has not been redacted.
#[derive(Debug)]
pub struct OriginalSyncRoomMessageEvent {
    pub sender: UserId,
    pub origin_server_ts: MilliSecondsSinceUnixEpoch,
    pub msgtype: MessageType,
}

/// The caption of a file: the body of its message, where the file's name is given apart.
pub open spec fn caption(media: MediaText) -> Option<String> {
    match media.filename {
        Some(filename) => if filename@ != media.body@ {
            Some(media.body)
        } else {
            None
        },
        None => None,
    }
}

/// The text by which a message is found.
pub open spec fn message_body(msgtype: MessageType) -> Option<String> {
    match msgtype {
        MessageType::Text(body) | MessageType::Notice(body) | MessageType::Emote(body) => Some(
            body,
        ),
        MessageType::Audio(media)
        | MessageType::File(media)
        | MessageType::Image(media)
        | MessageType::Video(media) => caption(media),
        MessageType::Other => None,
    }
}

impl MediaText {
    /// The caption of the file, if it has one.
    pub fn caption(&self) -> (text: Option<String>)
        ensures
            text == caption(*self),
    {
        match &self.filename {
            Some(filename) => if *filename == self.body {
                None
            } else {
                Some(self.body.clone())
            },
            None => None,
        }
    }
}

impl MessageType {
    /// The text by which the message is found, if it has one.
    pub fn body(&self) -> (text: Option<String>)
        ensures
            text == message_body(*self),
    {
        match self {
            MessageType::Text(body) | MessageType::Notice(body) | MessageType::Emote(body) => Some(
                body.clone(),
            ),
            MessageType::Audio(media)
            | MessageType::File(media)
            | MessageType::Image(media)
            | MessageType::Video(media) => media.caption(),
            MessageType::Other => None,
        }
    }
}

} // verus!
