//! The schema of the bookmark index, and the documents that bookmarks become.

use tantivy::schema::Schema;
use tantivy::TantivyDocument;
use vstd::prelude::*;
use vstd::utf8::encode_utf8;

use crate::bookmark::{valid_pointer, BookmarkPointerInfo, Content, IndexedBookmarkContent, Pointer};
use crate::engine::{
    add_date, add_date_field, add_full_text_field, add_keyword_field, add_stored_keyword_field,
    add_text, build_schema, clone_schema, doc_values, field_named, is_named, name_of_field,
    new_document, schema_builder, schema_fields, text_bytes, Doc, FieldKind, FieldSpec, FieldValue,
    MAX_DOCUMENT_BYTES,
};
use crate::error::{IndexError, IndexSchemaError};

verus! {

/// What a bookmark schema holds: the fields of the engine's schema, and the ids of those that
/// bookmarks use.
#[verifier::ext_equal]
pub struct SchemaModel {
    pub fields: Seq<FieldSpec>,
    /// The id of the bookmark event: the primary key.
    pub event_id: u32,
    /// The id of the first version of the bookmark event: the deletion key.
    pub original_event_id: u32,
    /// The id of the bookmarked event.
    pub target_event_id: u32,
    /// The room of the bookmarked event.
    pub target_room_id: u32,
    pub body: u32,
    pub date: u32,
    pub sender: u32,
    /// The fields in which words are looked for.
    pub default_search_fields: Seq<u32>,
}

/// The fields of a new bookmark schema.
pub open spec fn bookmark_fields() -> Seq<FieldSpec> {
    seq![
        FieldSpec { name: "event_id"@, kind: FieldKind::StoredKeyword },
        FieldSpec { name: "original_event_id"@, kind: FieldKind::StoredKeyword },
        FieldSpec { name: "target_event_id"@, kind: FieldKind::StoredKeyword },
        FieldSpec { name: "target_room_id"@, kind: FieldKind::StoredKeyword },
        FieldSpec { name: "body"@, kind: FieldKind::FullText },
        FieldSpec { name: "date"@, kind: FieldKind::Date },
        FieldSpec { name: "sender"@, kind: FieldKind::Keyword },
    ]
}

/// What a new bookmark schema holds.
pub open spec fn bookmark_schema() -> SchemaModel {
    SchemaModel {
        fields: bookmark_fields(),
        event_id: 0,
        original_event_id: 1,
        target_event_id: 2,
        target_room_id: 3,
        body: 4,
        date: 5,
        sender: 6,
        default_search_fields: seq![4u32],
    }
}

/// Whether the ids are those of the fields with the names that bookmarks use, and words are looked
/// for in the body.
pub open spec fn resolved(model: SchemaModel) -> bool {
    &&& is_named(model.fields, model.event_id, "event_id"@)
    &&& is_named(model.fields, model.original_event_id, "original_event_id"@)
    &&& is_named(model.fields, model.target_event_id, "target_event_id"@)
    &&& is_named(model.fields, model.target_room_id, "target_room_id"@)
    &&& is_named(model.fields, model.body, "body"@)
    &&& is_named(model.fields, model.date, "date"@)
    &&& is_named(model.fields, model.sender, "sender"@)
    &&& model.default_search_fields == seq![model.body]
}

/// Whether there is a field with the name.
pub open spec fn has_field(fields: Seq<FieldSpec>, name: Seq<char>) -> bool {
    exists|field: u32| is_named(fields, field, name)
}

/// Whether there is a field for each name that bookmarks use.
pub open spec fn has_bookmark_fields(fields: Seq<FieldSpec>) -> bool {
    &&& has_field(fields, "event_id"@)
    &&& has_field(fields, "original_event_id"@)
    &&& has_field(fields, "target_event_id"@)
    &&& has_field(fields, "target_room_id"@)
    &&& has_field(fields, "body"@)
    &&& has_field(fields, "date"@)
    &&& has_field(fields, "sender"@)
}

/// Whether the fields can be addressed in a document.
pub open spec fn addressable(model: SchemaModel) -> bool {
    &&& model.event_id < 0x1_0000
    &&& model.original_event_id < 0x1_0000
    &&& model.target_event_id < 0x1_0000
    &&& model.target_room_id < 0x1_0000
    &&& model.body < 0x1_0000
    &&& model.date < 0x1_0000
    &&& model.sender < 0x1_0000
}

/// The text that stands for the body of an event: the empty one where the event has none.
pub open spec fn indexed_body(content: Content) -> Seq<char> {
    match content.body {
        Some(body) => body,
        None => Seq::empty(),
    }
}

/// The document of a bookmark.
pub open spec fn document_of(model: SchemaModel, pointer: Pointer, content: Content) -> Doc {
    seq![
        (model.event_id, FieldValue::Text(pointer.event_id)),
        (model.original_event_id, FieldValue::Text(pointer.original_event_id)),
        (model.target_event_id, FieldValue::Text(pointer.target_event_id)),
        (model.target_room_id, FieldValue::Text(pointer.target_room_id)),
        (model.body, FieldValue::Text(indexed_body(content))),
        (model.date, FieldValue::Date(content.date * 1_000_000)),
        (model.sender, FieldValue::Text(content.sender)),
    ]
}

/// The number of bytes of the texts of a bookmark.
pub open spec fn bookmark_bytes(pointer: Pointer, content: Content) -> nat {
    encode_utf8(pointer.event_id).len() + encode_utf8(pointer.original_event_id).len()
        + encode_utf8(pointer.target_event_id).len() + encode_utf8(pointer.target_room_id).len()
        + encode_utf8(indexed_body(content)).len() + encode_utf8(content.sender).len()
}

/// Whether a bookmark can be put into a document: its texts are not longer, together, than the
/// engine can address.
pub open spec fn texts_fit(pointer: Pointer, content: Content) -> bool {
    bookmark_bytes(pointer, content) <= MAX_DOCUMENT_BYTES
}

/// Whether a bookmark can be put into a document.
pub fn fits(pointer_info: &BookmarkPointerInfo, bookmark_content: &IndexedBookmarkContent) -> (fits:
    bool)
    ensures
        fits == texts_fit(pointer_info@, bookmark_content@),
{
    let body: usize = match &bookmark_content.body {
        Some(body) => body.as_str().as_bytes().len(),
        None => {
            assert(encode_utf8(Seq::<char>::empty()) =~= Seq::empty());
            0
        },
    };
    let bytes: u128 = pointer_info.event_id.as_str().as_bytes().len() as u128
        + pointer_info.original_event_id.as_str().as_bytes().len() as u128
        + pointer_info.target_event_id.as_str().as_bytes().len() as u128
        + pointer_info.target_room_id.as_str().as_bytes().len() as u128 + body as u128
        + bookmark_content.sender.as_str().as_bytes().len() as u128;
    bytes <= MAX_DOCUMENT_BYTES as u128
}

/// The schema of the bookmark index.
pub struct BookmarkSchema {
    inner: Schema,
    event_id_field: u32,
    original_event_id_field: u32,
    target_event_id_field: u32,
    target_room_id_field: u32,
    body_field: u32,
    date_field: u32,
    sender_field: u32,
    default_search_fields: Vec<u32>,
}

impl View for BookmarkSchema {
    type V = SchemaModel;

    closed spec fn view(&self) -> SchemaModel {
        SchemaModel {
            fields: schema_fields(self.inner),
            event_id: self.event_id_field,
            original_event_id: self.original_event_id_field,
            target_event_id: self.target_event_id_field,
            target_room_id: self.target_room_id_field,
            body: self.body_field,
            date: self.date_field,
            sender: self.sender_field,
            default_search_fields: self.default_search_fields@,
        }
    }
}

/// The names of the fields of a bookmark schema are distinct and may name fields.
pub proof fn lemma_field_names()
    ensures
        forall|i: int| #![trigger bookmark_fields()[i]]
            0 <= i < bookmark_fields().len() ==> bookmark_fields()[i].name.len() > 0
                && bookmark_fields()[i].name[0] != '-',
        forall|i: int, j: int| #![trigger bookmark_fields()[i], bookmark_fields()[j]]
            0 <= i < j < bookmark_fields().len() ==> bookmark_fields()[i].name
                != bookmark_fields()[j].name,
{
    reveal_strlit("event_id");
    reveal_strlit("original_event_id");
    reveal_strlit("target_event_id");
    reveal_strlit("target_room_id");
    reveal_strlit("body");
    reveal_strlit("date");
    reveal_strlit("sender");
    let lengths = seq![8int, 17, 15, 14, 4, 4, 6];
    assert forall|i: int|
        0 <= i < bookmark_fields().len() implies bookmark_fields()[i].name.len() == lengths[i] by {}
    assert("body"@[0] != "date"@[0]);
}

impl BookmarkSchema {
    /// The schema of a new bookmark index.
    pub fn new() -> (schema: BookmarkSchema)
        ensures
            schema@ == bookmark_schema(),
            resolved(schema@),
    {
        proof {
            lemma_field_names();
        }
        let ghost names = bookmark_fields();
        let mut schema = schema_builder();
        assert(names[0].name == "event_id"@);
        let event_id_field: u32 = add_stored_keyword_field(&mut schema, "event_id");
        assert(names[1].name == "original_event_id"@);
        let original_event_id_field: u32 = add_stored_keyword_field(
            &mut schema,
            "original_event_id",
        );
        assert(names[2].name == "target_event_id"@);
        let target_event_id_field: u32 = add_stored_keyword_field(&mut schema, "target_event_id");
        assert(names[3].name == "target_room_id"@);
        let target_room_id_field: u32 = add_stored_keyword_field(&mut schema, "target_room_id");
        assert(names[4].name == "body"@);
        let body_field: u32 = add_full_text_field(&mut schema, "body");
        assert(names[5].name == "date"@);
        let date_field: u32 = add_date_field(&mut schema, "date");
        assert(names[6].name == "sender"@);
        let sender_field: u32 = add_keyword_field(&mut schema, "sender");
        let default_search_fields: Vec<u32> = vec![body_field];
        let inner = build_schema(schema);
        assert(schema_fields(inner) =~= names);
        assert(default_search_fields@ =~= seq![4u32]);
        BookmarkSchema {
            inner,
            event_id_field,
            original_event_id_field,
            target_event_id_field,
            target_room_id_field,
            body_field,
            date_field,
            sender_field,
            default_search_fields,
        }
    }

    /// The bookmark schema over a given schema, if the latter has all fields that bookmarks use.
    pub fn try_from(schema: Schema) -> (result: Result<BookmarkSchema, IndexSchemaError>)
        ensures
            result is Ok <==> has_bookmark_fields(schema_fields(schema)),
            result matches Ok(found) ==> found@.fields == schema_fields(schema) && resolved(found@),
    {
        let event_id_field: u32 = match field_named(&schema, "event_id") {
            Ok(field) => field,
            Err(source) => return Err(IndexSchemaError { source }),
        };
        let original_event_id_field: u32 = match field_named(&schema, "original_event_id") {
            Ok(field) => field,
            Err(source) => return Err(IndexSchemaError { source }),
        };
        let target_event_id_field: u32 = match field_named(&schema, "target_event_id") {
            Ok(field) => field,
            Err(source) => return Err(IndexSchemaError { source }),
        };
        let target_room_id_field: u32 = match field_named(&schema, "target_room_id") {
            Ok(field) => field,
            Err(source) => return Err(IndexSchemaError { source }),
        };
        let body_field: u32 = match field_named(&schema, "body") {
            Ok(field) => field,
            Err(source) => return Err(IndexSchemaError { source }),
        };
        let date_field: u32 = match field_named(&schema, "date") {
            Ok(field) => field,
            Err(source) => return Err(IndexSchemaError { source }),
        };
        let sender_field: u32 = match field_named(&schema, "sender") {
            Ok(field) => field,
            Err(source) => return Err(IndexSchemaError { source }),
        };
        let default_search_fields: Vec<u32> = vec![body_field];
        assert(default_search_fields@ =~= seq![body_field]);
        Ok(
            BookmarkSchema {
                inner: schema,
                event_id_field,
                original_event_id_field,
                target_event_id_field,
                target_room_id_field,
                body_field,
                date_field,
                sender_field,
                default_search_fields,
            },
        )
    }

    /// The fields in which words are looked for.
    pub fn default_search_fields(&self) -> (fields: Vec<u32>)
        ensures
            fields@ == self@.default_search_fields,
    {
        let fields = self.default_search_fields.clone();
        assert(fields@ =~= self.default_search_fields@);
        fields
    }

    /// The field of the id of a bookmark event.
    pub fn primary_key(&self) -> (field: u32)
        ensures
            field == self@.event_id,
    {
        self.event_id_field
    }

    /// The field of the id of the first version of a bookmark event.
    pub fn deletion_key(&self) -> (field: u32)
        ensures
            field == self@.original_event_id,
    {
        self.original_event_id_field
    }

    /// The field of the id of the bookmarked event.
    pub fn target_event_id_key(&self) -> (field: u32)
        ensures
            field == self@.target_event_id,
    {
        self.target_event_id_field
    }

    /// The field of the room of the bookmarked event.
    pub fn target_room_id_key(&self) -> (field: u32)
        ensures
            field == self@.target_room_id,
    {
        self.target_room_id_field
    }

    /// The name of a field.
    pub fn get_field_name(&self, field: u32) -> (name: &str)
        requires
            field < self@.fields.len(),
        ensures
            name@ == self@.fields[field as int].name,
    {
        name_of_field(&self.inner, field)
    }

    /// The engine's schema.
    pub fn as_tantivy_schema(&self) -> (schema: Schema)
        ensures
            schema_fields(schema) == self@.fields,
    {
        clone_schema(&self.inner)
    }

    /// The document of a bookmark. A bookmark without a body is one with an empty body.
    pub fn make_doc(
        &self,
        pointer_info: &BookmarkPointerInfo,
        bookmark_content: &IndexedBookmarkContent,
    ) -> (document: Result<TantivyDocument, IndexError>)
        requires
            addressable(self@),
            texts_fit(pointer_info@, bookmark_content@),
        ensures
            valid_pointer(pointer_info@),
            document matches Ok(doc) && doc_values(doc) == document_of(
                self@,
                pointer_info@,
                bookmark_content@,
            ),
    {
        let event_id = pointer_info.event_id.as_str();
        let original_event_id = pointer_info.original_event_id.as_str();
        let target_event_id = pointer_info.target_event_id.as_str();
        let target_room_id = pointer_info.target_room_id.as_str();
        let body = match &bookmark_content.body {
            Some(body) => body.as_str(),
            None => {
                proof {
                    reveal_strlit("");
                }
                ""
            },
        };
        let sender = bookmark_content.sender.as_str();
        assert(body@ =~= indexed_body(bookmark_content@));
        let mut document = new_document();
        proof {
            reveal_with_fuel(text_bytes, 8);
        }
        add_text(&mut document, self.event_id_field, event_id);
        add_text(&mut document, self.original_event_id_field, original_event_id);
        add_text(&mut document, self.target_event_id_field, target_event_id);
        add_text(&mut document, self.target_room_id_field, target_room_id);
        add_text(&mut document, self.body_field, body);
        add_date(&mut document, self.date_field, bookmark_content.date.get());
        add_text(&mut document, self.sender_field, sender);
        assert(doc_values(document) =~= document_of(self@, pointer_info@, bookmark_content@));
        Ok(document)
    }
}

} // verus!
