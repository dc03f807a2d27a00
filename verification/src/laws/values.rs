//! What is read from events and messages, and what is indexed of them.

use tantivy::schema::Schema;
use tantivy::TantivyDocument;
use vstd::prelude::*;
use vstd::utf8::encode_utf8;

use crate::bookmark::{
    found_views, pointer_info, valid_pointer, BookmarkPointerInfo, Content, IndexedBookmark,
    IndexedBookmarkContent, Pointer,
};
use crate::engine::{doc_values, schema_fields, Doc, FieldValue};
use crate::error::{failure_policy, FailurePolicy, IndexError, IndexSchemaError, OpenDirectoryError};
use crate::events::{
    MediaText, MessageType, OriginalSyncBookmarkEvent, OriginalSyncRoomMessageEvent, RedactionEvent,
    Relation,
};
use crate::execute::{decide_next_try, next_try, operation_views, NextTry};
use crate::ids::{
    is_event_id, is_room_id, is_user_id, score_rank, EventId, MilliSecondsSinceUnixEpoch, RoomId,
    Score, UserId,
};
use crate::model::{bookmark_doc, Operation};
use crate::operation::{
    derive_bookmark_operation_from_regular_index_operation, BookmarkIndexOperation,
    RoomIndexOperation,
};
use crate::schema::{
    bookmark_fields, bookmark_schema, fits, has_bookmark_fields, has_field, BookmarkSchema,
};

verus! {

// ---------------------------------------------------------------------------------------------
// Messages
// ---------------------------------------------------------------------------------------------

/// The caption of a file is the body of its message, where the file has a name of its own.
pub proof fn law_caption_is_a_body_beside_a_name(media: MediaText, text: Option<String>)
    requires
        call_ensures(MediaText::caption, (&media,), text),
    ensures
        text matches Some(caption) ==> caption@ == media.body@,
        text is Some <==> (media.filename matches Some(filename) && filename@ != media.body@),
{
}

/// A message is found by its body, whatever the kind of text, and a file by its caption.
pub proof fn law_message_is_found_by_its_text(
    msgtype: MessageType,
    text: Option<String>,
    caption: Option<String>,
)
    requires
        call_ensures(MessageType::body, (&msgtype,), text),
    ensures
        msgtype matches MessageType::Text(body) ==> (text matches Some(found) && found@ == body@),
        msgtype matches MessageType::Notice(body) ==> (text matches Some(found) && found@ == body@),
        msgtype matches MessageType::Emote(body) ==> (text matches Some(found) && found@ == body@),
        msgtype matches MessageType::Audio(media) ==> call_ensures(
            MediaText::caption,
            (&media,),
            caption,
        ) ==> text == caption,
        msgtype matches MessageType::File(media) ==> call_ensures(
            MediaText::caption,
            (&media,),
            caption,
        ) ==> text == caption,
        msgtype matches MessageType::Image(media) ==> call_ensures(
            MediaText::caption,
            (&media,),
            caption,
        ) ==> text == caption,
        msgtype matches MessageType::Video(media) ==> call_ensures(
            MediaText::caption,
            (&media,),
            caption,
        ) ==> text == caption,
        msgtype is Other ==> text is None,
{
}

/// What is indexed of a message is the text that it is found by, when it was sent, and by whom.
pub proof fn law_message_is_indexed(
    message: OriginalSyncRoomMessageEvent,
    text: Option<String>,
    content: IndexedBookmarkContent,
)
    requires
        call_ensures(MessageType::body, (&message.msgtype,), text),
        call_ensures(IndexedBookmarkContent::of_message, (&message,), content),
    ensures
        content.body == text,
        content.date == message.origin_server_ts,
        content.sender == message.sender,
        content@.body == match text {
            Some(body) => Some(body@),
            None => None,
        },
        content@.date == message.origin_server_ts@,
        content@.sender == message.sender@,
{
}

/// A message becomes the content that is indexed of it.
pub proof fn law_message_becomes_content(
    message: OriginalSyncRoomMessageEvent,
    one: IndexedBookmarkContent,
    other: IndexedBookmarkContent,
)
    requires
        call_ensures(
            <IndexedBookmarkContent as From<OriginalSyncRoomMessageEvent>>::from,
            (message,),
            one,
        ),
        call_ensures(IndexedBookmarkContent::of_message, (&message,), other),
    ensures
        one == other,
{
}

/// Content is made of what it is given.
pub proof fn law_content_is_what_it_is_made_of(
    body: Option<String>,
    date: MilliSecondsSinceUnixEpoch,
    sender: UserId,
    content: IndexedBookmarkContent,
)
    requires
        call_ensures(IndexedBookmarkContent::new, (body, date, sender), content),
    ensures
        content.body == body,
        content@.date == date@,
        content@.sender == sender@,
{
}

// ---------------------------------------------------------------------------------------------
// Bookmarks
// ---------------------------------------------------------------------------------------------

/// A bookmark event stands for itself and points where it says. An edit stands for the event that it
/// replaces and points where its new version says.
pub proof fn law_bookmark_points_where_it_says(
    event: OriginalSyncBookmarkEvent,
    info: BookmarkPointerInfo,
)
    requires
        call_ensures(BookmarkPointerInfo::of_event, (&event,), info),
    ensures
        info.event_id == event.event_id,
        match event.content.relates_to {
            Some(Relation::Replacement(replacement)) => {
                &&& info.original_event_id == replacement.event_id
                &&& info.target_event_id == replacement.new_pointer.event_id
                &&& info.target_room_id == replacement.new_pointer.room_id
            },
            Some(Relation::Other) | None => {
                &&& info.original_event_id == event.event_id
                &&& info.target_event_id == event.content.pointer.event_id
                &&& info.target_room_id == event.content.pointer.room_id
            },
        },
{
}

/// A bookmark event, and a bookmark that was found, become what identifies the bookmark.
pub proof fn law_bookmark_becomes_its_ids(
    event: OriginalSyncBookmarkEvent,
    of_event: BookmarkPointerInfo,
    from_event: BookmarkPointerInfo,
    found: IndexedBookmark,
    from_found: BookmarkPointerInfo,
)
    requires
        call_ensures(BookmarkPointerInfo::of_event, (&event,), of_event),
        call_ensures(
            <BookmarkPointerInfo as From<OriginalSyncBookmarkEvent>>::from,
            (event,),
            from_event,
        ),
        call_ensures(<BookmarkPointerInfo as From<IndexedBookmark>>::from, (found,), from_found),
    ensures
        from_event == of_event,
        from_found.event_id == found.event_id,
        from_found.original_event_id == found.original_event_id,
        from_found.target_event_id == found.target_event_id,
        from_found.target_room_id == found.target_room_id,
{
}

/// A bookmark that was found is identified by the ids that were found.
pub proof fn law_found_bookmark_keeps_its_ids(bookmark: IndexedBookmark, info: BookmarkPointerInfo)
    requires
        call_ensures(IndexedBookmark::pointer_info, (&bookmark,), info),
    ensures
        info.event_id == bookmark.event_id,
        info.original_event_id == bookmark.original_event_id,
        info.target_event_id == bookmark.target_event_id,
        info.target_room_id == bookmark.target_room_id,
        pointer_info(bookmark) == info,
        bookmark@.pointer == info@,
        bookmark@.score == bookmark.score.bits,
{
}

/// The ids of a bookmark are those in its parts, and its own is that of its first version.
pub proof fn law_bookmark_is_its_ids(info: BookmarkPointerInfo, id: EventId)
    requires
        call_ensures(BookmarkPointerInfo::bookmark_id, (info,), id),
    ensures
        id@ == info.original_event_id@,
        info@.event_id == info.event_id@,
        info@.original_event_id == info.original_event_id@,
        info@.target_event_id == info.target_event_id@,
        info@.target_room_id == info.target_room_id@,
{
}

/// What is found is listed one by one, each with its ids and its score.
pub proof fn law_found_bookmarks_are_listed(bookmarks: Seq<IndexedBookmark>)
    ensures
        found_views(bookmarks).len() == bookmarks.len(),
        forall|i: int|
            0 <= i < bookmarks.len() ==> {
                let found = #[trigger] found_views(bookmarks)[i];
                &&& found.pointer.event_id == bookmarks[i].event_id@
                &&& found.pointer.original_event_id == bookmarks[i].original_event_id@
                &&& found.pointer.target_event_id == bookmarks[i].target_event_id@
                &&& found.pointer.target_room_id == bookmarks[i].target_room_id@
                &&& found.score == bookmarks[i].score.bits
            },
{
}

/// The redacted event is the one that a redaction names where the version of the room has it, and the
/// one that it names at all otherwise.
pub proof fn law_redaction_names_an_event(
    redacts: Option<EventId>,
    content_redacts: Option<EventId>,
    in_content: bool,
    redacted: Option<EventId>,
    left: Option<EventId>,
)
    requires
        call_ensures(
            RedactionEvent::redacts,
            (RedactionEvent::Original { redacts, content_redacts }, in_content),
            redacted,
        ),
        call_ensures(
            RedactionEvent::redacts,
            (RedactionEvent::Redacted { content_redacts }, in_content),
            left,
        ),
    ensures
        in_content && content_redacts is Some ==> redacted == content_redacts,
        !in_content && redacts is Some ==> redacted == redacts,
        content_redacts is None ==> redacted == redacts,
        redacts is None ==> redacted == content_redacts,
        left == content_redacts,
{
}

// ---------------------------------------------------------------------------------------------
// Operations
// ---------------------------------------------------------------------------------------------

/// Bookmarks follow the events that they point at: every edit of an event, whatever kind of message it
/// brings, replaces what is indexed of its bookmarks by what is indexed of the new message, and every
/// removal removes them. Nothing else does anything to them.
pub proof fn law_bookmarks_follow_their_events(
    operation: RoomIndexOperation,
    derived: Option<BookmarkIndexOperation>,
)
    requires
        call_ensures(
            derive_bookmark_operation_from_regular_index_operation,
            (&operation,),
            derived,
        ),
    ensures
        operation matches RoomIndexOperation::Edit(event_id, message) ==> (
        derived matches Some(BookmarkIndexOperation::EditWithTargetEventId(target, content))
            && target@ == event_id@ && content@.date == message.origin_server_ts@ && content@.sender
            == message.sender@ && forall|text: Option<String>| #[trigger]
            call_ensures(MessageType::body, (&message.msgtype,), text) ==> content@.body == (
            match text {
                Some(body) => Some(body@),
                None => None,
            })),
        operation matches RoomIndexOperation::Remove(event_id) ==> (
        derived matches Some(BookmarkIndexOperation::RemoveWithTargetEventId(target)) && target@
            == event_id@),
        operation is Add || operation is Noop ==> derived is None,
{
    if let Some(found) = derived {
        match found {
            BookmarkIndexOperation::Add(..) => {},
            BookmarkIndexOperation::Remove(..) => {},
            BookmarkIndexOperation::RemoveWithTargetEventId(..) => {},
            BookmarkIndexOperation::Edit(..) => {},
            BookmarkIndexOperation::EditWithTargetEventId(..) => {},
            BookmarkIndexOperation::Noop => {},
        }
    }
}

/// Operations are about the ids and the content that they hold.
pub proof fn law_operations_are_what_they_hold(
    event: OriginalSyncBookmarkEvent,
    info: BookmarkPointerInfo,
    other: BookmarkPointerInfo,
    content: IndexedBookmarkContent,
    event_id: EventId,
)
    requires
        call_ensures(BookmarkPointerInfo::of_event, (&event,), info),
    ensures
        BookmarkIndexOperation::Add(Box::new(event), content)@ == Operation::Add(info@, content@),
        BookmarkIndexOperation::Remove(event_id)@ == Operation::Remove(event_id@),
        BookmarkIndexOperation::RemoveWithTargetEventId(event_id)@
            == Operation::RemoveWithTargetEventId(event_id@),
        BookmarkIndexOperation::Edit(other, content)@ == Operation::Edit(other@, content@),
        BookmarkIndexOperation::EditWithTargetEventId(event_id, content)@
            == Operation::EditWithTargetEventId(event_id@, content@),
        BookmarkIndexOperation::Noop@ == Operation::Noop,
{
}

/// Operations are listed one by one.
pub proof fn law_operations_are_listed(operations: Seq<BookmarkIndexOperation>)
    ensures
        operation_views(operations).len() == operations.len(),
        forall|i: int|
            0 <= i < operations.len() ==> #[trigger] operation_views(operations)[i]
                == operations[i]@,
{
}

// ---------------------------------------------------------------------------------------------
// Documents
// ---------------------------------------------------------------------------------------------

/// The fields of a new index are known by their names: the ids of a bookmark are indexed whole and
/// handed back, its body is indexed word by word, and words are looked for in the body alone.
pub proof fn law_fields_are_known_by_their_names(schema: BookmarkSchema)
    requires
        call_ensures(BookmarkSchema::new, (), schema),
    ensures
        schema@ == bookmark_schema(),
        schema@.fields == bookmark_fields(),
        schema@.fields.len() == 7,
        schema@.fields[schema@.event_id as int].name == "event_id"@,
        schema@.fields[schema@.original_event_id as int].name == "original_event_id"@,
        schema@.fields[schema@.target_event_id as int].name == "target_event_id"@,
        schema@.fields[schema@.target_room_id as int].name == "target_room_id"@,
        schema@.fields[schema@.body as int].name == "body"@,
        schema@.fields[schema@.date as int].name == "date"@,
        schema@.fields[schema@.sender as int].name == "sender"@,
        schema@.fields[schema@.event_id as int].kind is StoredKeyword,
        schema@.fields[schema@.original_event_id as int].kind is StoredKeyword,
        schema@.fields[schema@.target_event_id as int].kind is StoredKeyword,
        schema@.fields[schema@.target_room_id as int].kind is StoredKeyword,
        schema@.fields[schema@.body as int].kind is FullText,
        schema@.fields[schema@.date as int].kind is Date,
        schema@.fields[schema@.sender as int].kind is Keyword,
        schema@.default_search_fields == seq![schema@.body],
        schema@.event_id < 7,
        schema@.original_event_id < 7,
        schema@.target_event_id < 7,
        schema@.target_room_id < 7,
        schema@.body < 7,
        schema@.date < 7,
        schema@.sender < 7,
{
}

/// A schema can be used for bookmarks if and only if it has a field for each of the names, and then
/// the fields are found by their names.
pub proof fn law_schema_is_found_by_names(
    schema: Schema,
    result: Result<BookmarkSchema, IndexSchemaError>,
)
    requires
        call_ensures(BookmarkSchema::try_from, (schema,), result),
    ensures
        result is Ok <==> forall|name: Seq<char>|
            name == "event_id"@ || name == "original_event_id"@ || name == "target_event_id"@ || name
                == "target_room_id"@ || name == "body"@ || name == "date"@ || name == "sender"@
                ==> #[trigger] has_field(schema_fields(schema), name),
        result matches Ok(found) ==> {
            let fields = schema_fields(schema);
            &&& found@.fields == fields
            &&& found@.event_id < fields.len() && fields[found@.event_id as int].name == "event_id"@
            &&& found@.original_event_id < fields.len() && fields[found@.original_event_id as int].name
                == "original_event_id"@
            &&& found@.target_event_id < fields.len() && fields[found@.target_event_id as int].name
                == "target_event_id"@
            &&& found@.target_room_id < fields.len() && fields[found@.target_room_id as int].name
                == "target_room_id"@
            &&& found@.body < fields.len() && fields[found@.body as int].name == "body"@
            &&& found@.date < fields.len() && fields[found@.date as int].name == "date"@
            &&& found@.sender < fields.len() && fields[found@.sender as int].name == "sender"@
            &&& found@.default_search_fields == seq![found@.body]
        },
{
    let fields = schema_fields(schema);
    if result is Ok {
        assert(has_bookmark_fields(fields));
    } else if forall|name: Seq<char>|
        name == "event_id"@ || name == "original_event_id"@ || name == "target_event_id"@ || name
            == "target_room_id"@ || name == "body"@ || name == "date"@ || name == "sender"@
            ==> #[trigger] has_field(fields, name) {
        assert(has_field(fields, "event_id"@));
        assert(has_field(fields, "original_event_id"@));
        assert(has_field(fields, "target_event_id"@));
        assert(has_field(fields, "target_room_id"@));
        assert(has_field(fields, "body"@));
        assert(has_field(fields, "date"@));
        assert(has_field(fields, "sender"@));
    }
}

/// Keys are the fields that they are named for.
pub proof fn law_keys_are_fields(
    schema: BookmarkSchema,
    primary: u32,
    deletion: u32,
    target: u32,
    room: u32,
    searched: Vec<u32>,
    field: u32,
    name: &str,
    inner: Schema,
)
    requires
        call_ensures(BookmarkSchema::primary_key, (&schema,), primary),
        call_ensures(BookmarkSchema::deletion_key, (&schema,), deletion),
        call_ensures(BookmarkSchema::target_event_id_key, (&schema,), target),
        call_ensures(BookmarkSchema::target_room_id_key, (&schema,), room),
        call_ensures(BookmarkSchema::default_search_fields, (&schema,), searched),
        call_ensures(BookmarkSchema::get_field_name, (&schema, field), name),
        call_ensures(BookmarkSchema::as_tantivy_schema, (&schema,), inner),
    ensures
        primary == schema@.event_id,
        deletion == schema@.original_event_id,
        target == schema@.target_event_id,
        room == schema@.target_room_id,
        searched@ == schema@.default_search_fields,
        name@ == schema@.fields[field as int].name,
        schema_fields(inner) == schema@.fields,
{
}

/// The document of a bookmark holds its ids, the whole text of its body, or an empty one where it has
/// none, when the event was sent, and by whom, each in its field, and nothing else.
pub proof fn law_document_holds_the_bookmark(
    schema: BookmarkSchema,
    info: BookmarkPointerInfo,
    content: IndexedBookmarkContent,
    document: Result<TantivyDocument, IndexError>,
)
    requires
        call_ensures(BookmarkSchema::make_doc, (&schema, &info, &content), document),
    ensures
        document matches Ok(made) && {
            let doc = doc_values(made);
            &&& doc.len() == 7
            &&& doc.contains((schema@.event_id, FieldValue::Text(info.event_id@)))
            &&& doc.contains((schema@.original_event_id, FieldValue::Text(info.original_event_id@)))
            &&& doc.contains((schema@.target_event_id, FieldValue::Text(info.target_event_id@)))
            &&& doc.contains((schema@.target_room_id, FieldValue::Text(info.target_room_id@)))
            &&& content.body matches Some(body) ==> doc.contains(
                (schema@.body, FieldValue::Text(body@)),
            )
            &&& content.body is None ==> doc.contains(
                (schema@.body, FieldValue::Text(Seq::<char>::empty())),
            )
            &&& doc.contains((schema@.date, FieldValue::Date(content.date@ * 1_000_000)))
            &&& doc.contains((schema@.sender, FieldValue::Text(content.sender@)))
        },
        schema@ == bookmark_schema() ==> (document matches Ok(made) && doc_values(made)
            == bookmark_doc(info@, content@)),
{
    let doc = doc_values(document->Ok_0);
    assert(doc[0] == (schema@.event_id, FieldValue::Text(info.event_id@)));
    assert(doc[1] == (schema@.original_event_id, FieldValue::Text(info.original_event_id@)));
    assert(doc[2] == (schema@.target_event_id, FieldValue::Text(info.target_event_id@)));
    assert(doc[3] == (schema@.target_room_id, FieldValue::Text(info.target_room_id@)));
    if let Some(body) = content.body {
        assert(doc[4] == (schema@.body, FieldValue::Text(body@)));
    } else {
        assert(doc[4] == (schema@.body, FieldValue::Text(Seq::<char>::empty())));
    }
    assert(doc[5] == (schema@.date, FieldValue::Date(content.date@ * 1_000_000)));
    assert(doc[6] == (schema@.sender, FieldValue::Text(content.sender@)));
}

/// The document that stands for a bookmark in an index holds the bookmark.
pub proof fn law_bookmark_is_its_document(pointer: Pointer, content: Content, doc: Doc)
    requires
        doc == bookmark_doc(pointer, content),
    ensures
        doc.len() == 7,
        doc[0] == (bookmark_schema().event_id, FieldValue::Text(pointer.event_id)),
        doc[1] == (bookmark_schema().original_event_id, FieldValue::Text(pointer.original_event_id)),
        doc[2] == (bookmark_schema().target_event_id, FieldValue::Text(pointer.target_event_id)),
        doc[3] == (bookmark_schema().target_room_id, FieldValue::Text(pointer.target_room_id)),
        content.body matches Some(body) ==> doc[4] == (
            bookmark_schema().body,
            FieldValue::Text(body),
        ),
        content.body is None ==> doc[4] == (
            bookmark_schema().body,
            FieldValue::Text(Seq::<char>::empty()),
        ),
        doc[5] == (bookmark_schema().date, FieldValue::Date(content.date * 1_000_000)),
        doc[6] == (bookmark_schema().sender, FieldValue::Text(content.sender)),
{
}

/// Every bookmark fits a document as long as its texts, with its body, have no more bytes together than
/// nearly four gibibytes.
pub proof fn law_bookmark_fits(
    info: BookmarkPointerInfo,
    content: IndexedBookmarkContent,
    has_room: bool,
)
    requires
        call_ensures(fits, (&info, &content), has_room),
    ensures
        has_room <==> encode_utf8(info.event_id@).len() + encode_utf8(info.original_event_id@).len()
            + encode_utf8(info.target_event_id@).len() + encode_utf8(info.target_room_id@).len()
            + encode_utf8(content.sender@).len() + (match content.body {
            Some(body) => encode_utf8(body@).len(),
            None => 0,
        }) <= 0xffff_0000,
{
    assert(encode_utf8(Seq::<char>::empty()) =~= Seq::empty());
}

// ---------------------------------------------------------------------------------------------
// Failures
// ---------------------------------------------------------------------------------------------

/// A failure of the engine, of a schema, of a write or of reading and writing may pass. What is wrong
/// with a query, an id or a directory is reported. What is wrong with a message is ignored.
pub proof fn law_failures_are_told_apart(error: IndexError, policy: FailurePolicy)
    requires
        call_ensures(IndexError::policy, (&error,), policy),
    ensures
        policy == FailurePolicy::Retry <==> {
            ||| error is TantivyError
            ||| error is IndexSchemaError
            ||| error is IndexWriteError
            ||| error is IO
            ||| error matches IndexError::OpenDirectoryError(reason) && reason is IoError
        },
        policy == FailurePolicy::Ignore <==> {
            ||| error is CannotIndexRedactedMessage
            ||| error is EmptyMessage
            ||| error is MessageTypeNotSupported
        },
        policy == FailurePolicy::Bubble <==> {
            ||| error is QueryParserError
            ||| error is QueryTooDeep
            ||| error is IdParsing
            ||| error matches IndexError::OpenDirectoryError(reason) && !(reason is IoError)
        },
        policy == failure_policy(error),
{
}

/// A failure is followed by another try only where it may pass and not all tries were made, and it is
/// reported where all were made.
pub proof fn law_last_try_is_the_last(
    num_tries: usize,
    retries: usize,
    error: IndexError,
    policy: FailurePolicy,
    next: NextTry,
)
    requires
        call_ensures(IndexError::policy, (&error,), policy),
        call_ensures(decide_next_try, (num_tries, retries, &error), next),
    ensures
        num_tries == retries ==> next == NextTry::Fail,
        num_tries != retries ==> {
            &&& policy == FailurePolicy::Retry <==> next == NextTry::Again
            &&& policy == FailurePolicy::Bubble <==> next == NextTry::Fail
            &&& policy == FailurePolicy::Ignore <==> next == NextTry::GoOn
        },
        next == next_try(num_tries, retries, policy),
{
}

// ---------------------------------------------------------------------------------------------
// Scores and instants
// ---------------------------------------------------------------------------------------------

/// Scores are ordered as the numbers whose patterns they are: by their patterns from zero on, the other
/// way round below zero, and all that is below zero below all that is not.
pub proof fn law_scores_are_ordered(one: Score, other: Score, above: bool)
    requires
        call_ensures(Score::is_above, (&one, &other), above),
    ensures
        one.bits < 0x8000_0000 && other.bits < 0x8000_0000 ==> above == (one.bits > other.bits),
        one.bits >= 0x8000_0000 && other.bits >= 0x8000_0000 ==> above == (one.bits < other.bits),
        one.bits < 0x8000_0000 && other.bits >= 0x8000_0000 ==> above,
        one.bits >= 0x8000_0000 && other.bits < 0x8000_0000 ==> !above,
        above <==> score_rank(one.bits) > score_rank(other.bits),
{
}

/// Ranks tell scores apart.
pub proof fn law_ranks_tell_scores_apart(one: u32, other: u32)
    ensures
        score_rank(one) == score_rank(other) <==> one == other,
{
}

/// An instant is there for every number of milliseconds whose count of nanoseconds is no more than a
/// signed integer of 64 bits holds.
pub proof fn law_instants_fit_nanoseconds(
    millis: u64,
    instant: Option<MilliSecondsSinceUnixEpoch>,
    known: MilliSecondsSinceUnixEpoch,
    read: u64,
)
    requires
        call_ensures(MilliSecondsSinceUnixEpoch::new, (millis,), instant),
        call_ensures(MilliSecondsSinceUnixEpoch::get, (&known,), read),
    ensures
        instant is Some <==> millis * 1_000_000 <= i64::MAX,
        instant matches Some(at) ==> at@ == millis,
        read == known@,
{
}

// ---------------------------------------------------------------------------------------------
// Ids
// ---------------------------------------------------------------------------------------------

/// An event id is read from every text that is one and from no other, and is that text.
pub proof fn law_event_id_is_its_text(
    text: &str,
    id: Option<EventId>,
    event_id: EventId,
    other: EventId,
    read: &str,
    same: bool,
)
    requires
        call_ensures(EventId::parse, (text,), id),
        call_ensures(EventId::as_str, (&event_id,), read),
        call_ensures(EventId::same_as, (&event_id, &other), same),
    ensures
        id is Some <==> is_event_id(text@),
        id matches Some(found) ==> found@ == text@,
        read@ == event_id@,
        same <==> event_id@ == other@,
{
}

/// A room id is read from every text that is one and from no other, and is that text.
pub proof fn law_room_id_is_its_text(
    text: &str,
    id: Option<RoomId>,
    room_id: RoomId,
    other: RoomId,
    read: &str,
    same: bool,
)
    requires
        call_ensures(RoomId::parse, (text,), id),
        call_ensures(RoomId::as_str, (&room_id,), read),
        call_ensures(RoomId::same_as, (&room_id, &other), same),
    ensures
        id is Some <==> is_room_id(text@),
        id matches Some(found) ==> found@ == text@,
        read@ == room_id@,
        same <==> room_id@ == other@,
{
}

/// A user id is read from every text that is one and from no other, and is that text.
pub proof fn law_user_id_is_its_text(
    text: &str,
    id: Option<UserId>,
    user_id: UserId,
    other: UserId,
    read: &str,
    same: bool,
)
    requires
        call_ensures(UserId::parse, (text,), id),
        call_ensures(UserId::as_str, (&user_id,), read),
        call_ensures(UserId::same_as, (&user_id, &other), same),
    ensures
        id is Some <==> is_user_id(text@),
        id matches Some(found) ==> found@ == text@,
        read@ == user_id@,
        same <==> user_id@ == other@,
{
}

/// Ids are valid where all of them are.
pub proof fn law_pointer_is_valid_if_its_ids_are(pointer: Pointer)
    ensures
        valid_pointer(pointer) <==> {
            &&& is_event_id(pointer.event_id)
            &&& is_event_id(pointer.original_event_id)
            &&& is_event_id(pointer.target_event_id)
            &&& is_room_id(pointer.target_room_id)
        },
{
}

} // verus!
