//! The full-text engine, `tantivy`, as the rest of the library sees it.
//!
//! Everything in this file is either a model (what a schema, a document, an index, a snapshot or a
//! query holds, as sequences, sets and multisets) or a thin call into `tantivy` whose contract is
//! stated over that model. No result of the engine is promised to be a success: opening, writing
//! and reading may fail for reasons outside the model.

use tantivy::collector::TopDocs;
use tantivy::query::{AllQuery, BooleanQuery, Occur, QueryParser, QueryParserError, TermQuery};
use tantivy::schema::{
    DateOptions, DateTimePrecision, Field, IndexRecordOption, Schema, SchemaBuilder, Value, INDEXED,
    STORED, STRING, TEXT,
};
use tantivy::{
    DateTime, DocAddress, Index, IndexReader, IndexWriter, Searcher, TantivyDocument, TantivyError,
    Term,
};
use vstd::multiset::Multiset;
use vstd::prelude::*;
use vstd::utf8::encode_utf8;

use crate::ids::{score_rank, Score, MAX_MILLIS};
use crate::nesting::is_shallow;

verus! {

// ---------------------------------------------------------------------------------------------
// Schemas
// ---------------------------------------------------------------------------------------------

#[verifier::external_type_specification]
#[verifier::external_body]
pub struct ExSchema(tantivy::schema::Schema);

#[verifier::external_type_specification]
#[verifier::external_body]
pub struct ExSchemaBuilder(tantivy::schema::SchemaBuilder);

#[verifier::external_type_specification]
#[verifier::external_body]
pub struct ExTantivyError(tantivy::TantivyError);

/// How the engine treats the values of a field.
pub enum FieldKind {
    /// A text that is indexed whole, and handed back with the document.
    StoredKeyword,
    /// A text that is indexed whole.
    Keyword,
    /// A text that is indexed word by word.
    FullText,
    /// An instant, indexed with the precision of a second.
    Date,
    /// Anything else.
    Other,
}

/// A field of a schema. Its id is its position in the schema.
#[verifier::ext_equal]
pub struct FieldSpec {
    pub name: Seq<char>,
    pub kind: FieldKind,
}

/// The fields of a schema, in the order of their ids.
pub uninterp spec fn schema_fields(schema: Schema) -> Seq<FieldSpec>;

/// The fields added to a schema builder so far, in the order of their ids.
pub uninterp spec fn builder_fields(builder: SchemaBuilder) -> Seq<FieldSpec>;

/// Whether no field is of a kind that this file does not describe.
pub open spec fn described(fields: Seq<FieldSpec>) -> bool {
    forall|i: int| 0 <= i < fields.len() ==> !((#[trigger] fields[i]).kind is Other)
}

/// Whether the field exists and holds texts that are indexed whole.
pub open spec fn holds_keywords(fields: Seq<FieldSpec>, field: u32) -> bool {
    &&& field < fields.len()
    &&& fields[field as int].kind is StoredKeyword || fields[field as int].kind is Keyword
}

/// Whether a field with the given name may be added: the name is not taken, is not empty and does
/// not start with a dash.
pub open spec fn addable(fields: Seq<FieldSpec>, name: Seq<char>) -> bool {
    &&& fields.len() < 0xffff
    &&& name.len() > 0
    &&& name[0] != '-'
    &&& forall|i: int| 0 <= i < fields.len() ==> (#[trigger] fields[i]).name != name
}

/// Whether the given id is that of the field with the given name.
pub open spec fn is_named(fields: Seq<FieldSpec>, field: u32, name: Seq<char>) -> bool {
    field < fields.len() && fields[field as int].name == name
}

/// Calls `Schema::builder`: a builder without fields.
#[verifier::external_body]
pub(crate) fn schema_builder() -> (builder: SchemaBuilder)
    ensures
        builder_fields(builder) == Seq::<FieldSpec>::empty(),
{
    Schema::builder()
}

/// Calls `SchemaBuilder::add_text_field` with the options `STORED | STRING`: appends the field and
/// returns its id. The engine panics on a name that is taken, empty or starts with a dash.
#[verifier::external_body]
pub(crate) fn add_stored_keyword_field(builder: &mut SchemaBuilder, name: &str) -> (field: u32)
    requires
        addable(builder_fields(*old(builder)), name@),
    ensures
        field == builder_fields(*old(builder)).len(),
        builder_fields(*final(builder)) == builder_fields(*old(builder)).push(
            (FieldSpec { name: name@, kind: FieldKind::StoredKeyword }),
        ),
{
    builder.add_text_field(name, STORED | STRING).field_id()
}

/// Calls `SchemaBuilder::add_text_field` with the options `STRING`: appends the field and returns
/// its id. The engine panics on a name that is taken, empty or starts with a dash.
#[verifier::external_body]
pub(crate) fn add_keyword_field(builder: &mut SchemaBuilder, name: &str) -> (field: u32)
    requires
        addable(builder_fields(*old(builder)), name@),
    ensures
        field == builder_fields(*old(builder)).len(),
        builder_fields(*final(builder)) == builder_fields(*old(builder)).push(
            (FieldSpec { name: name@, kind: FieldKind::Keyword }),
        ),
{
    builder.add_text_field(name, STRING).field_id()
}

/// Calls `SchemaBuilder::add_text_field` with the options `TEXT`: appends the field and returns its
/// id. The engine panics on a name that is taken, empty or starts with a dash.
#[verifier::external_body]
pub(crate) fn add_full_text_field(builder: &mut SchemaBuilder, name: &str) -> (field: u32)
    requires
        addable(builder_fields(*old(builder)), name@),
    ensures
        field == builder_fields(*old(builder)).len(),
        builder_fields(*final(builder)) == builder_fields(*old(builder)).push(
            (FieldSpec { name: name@, kind: FieldKind::FullText }),
        ),
{
    builder.add_text_field(name, TEXT).field_id()
}

/// Calls `SchemaBuilder::add_date_field` for an indexed, fast field with the precision of a second:
/// appends the field and returns its id. The engine panics on a name that is taken, empty or starts
/// with a dash.
#[verifier::external_body]
pub(crate) fn add_date_field(builder: &mut SchemaBuilder, name: &str) -> (field: u32)
    requires
        addable(builder_fields(*old(builder)), name@),
    ensures
        field == builder_fields(*old(builder)).len(),
        builder_fields(*final(builder)) == builder_fields(*old(builder)).push(
            (FieldSpec { name: name@, kind: FieldKind::Date }),
        ),
{
    let options =
        DateOptions::from(INDEXED).set_fast().set_precision(DateTimePrecision::Seconds);
    builder.add_date_field(name, options).field_id()
}

/// Calls `SchemaBuilder::build`: the schema with the builder's fields.
#[verifier::external_body]
pub(crate) fn build_schema(builder: SchemaBuilder) -> (schema: Schema)
    ensures
        schema_fields(schema) == builder_fields(builder),
{
    builder.build()
}

/// Calls `Schema::get_field`: the id of the field with the given name, and an error if and only if
/// the schema has none.
#[verifier::external_body]
pub(crate) fn field_named(schema: &Schema, name: &str) -> (field: Result<u32, TantivyError>)
    ensures
        match field {
            Ok(id) => is_named(schema_fields(*schema), id, name@),
            Err(_) => forall|id: u32| !is_named(schema_fields(*schema), id, name@),
        },
{
    schema.get_field(name).map(|field| field.field_id())
}

/// Calls `Schema::get_field_name`: the name of a field. The engine panics where there is no such
/// field.
#[verifier::external_body]
pub(crate) fn name_of_field(schema: &Schema, field: u32) -> (name: &str)
    requires
        field < schema_fields(*schema).len(),
    ensures
        name@ == schema_fields(*schema)[field as int].name,
{
    schema.get_field_name(Field::from_field_id(field))
}

/// Calls `Schema::clone`, which shares the schema.
#[verifier::external_body]
pub(crate) fn clone_schema(schema: &Schema) -> (copy: Schema)
    ensures
        copy == *schema,
{
    schema.clone()
}

// ---------------------------------------------------------------------------------------------
// Documents
// ---------------------------------------------------------------------------------------------

#[verifier::external_type_specification]
#[verifier::external_body]
pub struct ExTantivyDocument(tantivy::TantivyDocument);

/// A value of a field in a document.
pub enum FieldValue {
    Text(Seq<char>),
    /// An instant, in nanoseconds since the Unix epoch.
    Date(int),
    Other,
}

/// The values of a document with the ids of their fields, in the order in which they were added.
pub type Doc = Seq<(u32, FieldValue)>;

/// What a document holds.
pub uninterp spec fn doc_values(document: TantivyDocument) -> Doc;

/// The most bytes that the texts of a document have together. The engine addresses what a document
/// holds with 32 bits, and what it adds to the texts stays far below the rest.
pub const MAX_DOCUMENT_BYTES: usize = 0xffff_0000;

/// The longest text, in bytes, that is indexed as a single term.
pub const MAX_TERM_BYTES: usize = 65_530;

/// The number of bytes of the texts of a document.
pub open spec fn text_bytes(doc: Doc) -> nat
    decreases doc.len(),
{
    if doc.len() == 0 {
        0
    } else {
        text_bytes(doc.drop_last()) + match doc.last().1 {
            FieldValue::Text(text) => encode_utf8(text).len(),
            _ => 0,
        }
    }
}

/// The first value of a field in a document.
pub open spec fn first_value(doc: Doc, field: u32) -> Option<FieldValue>
    decreases doc.len(),
{
    if doc.len() == 0 {
        None
    } else {
        match first_value(doc.drop_last(), field) {
            Some(value) => Some(value),
            None => if doc.last().0 == field {
                Some(doc.last().1)
            } else {
                None
            },
        }
    }
}

/// Whether a search for the whole text in the given field finds the document: a value of the field
/// is that text, and the text is short enough to be a term.
pub open spec fn has_term(doc: Doc, field: u32, text: Seq<char>) -> bool {
    &&& doc.contains((field, FieldValue::Text(text)))
    &&& encode_utf8(text).len() <= MAX_TERM_BYTES
}

/// What is handed back of a document: the values of its stored fields.
pub open spec fn stored_part(fields: Seq<FieldSpec>, doc: Doc) -> Doc {
    doc.filter(|value: (u32, FieldValue)| is_stored(fields, value.0))
}

/// Whether the values of a field are handed back with a document.
pub open spec fn is_stored(fields: Seq<FieldSpec>, field: u32) -> bool {
    field < fields.len() && fields[field as int].kind is StoredKeyword
}

/// Calls `TantivyDocument::new`: a document without values.
#[verifier::external_body]
pub(crate) fn new_document() -> (document: TantivyDocument)
    ensures
        doc_values(document) == Seq::<(u32, FieldValue)>::empty(),
{
    TantivyDocument::new()
}

/// Calls `TantivyDocument::add_text`: appends the value. A document addresses its values with 32
/// bits, and fields with 16.
#[verifier::external_body]
pub(crate) fn add_text(document: &mut TantivyDocument, field: u32, text: &str)
    requires
        field < 0x1_0000,
        doc_values(*old(document)).len() < 8,
        text_bytes(doc_values(*old(document))) + encode_utf8(text@).len() <= MAX_DOCUMENT_BYTES,
    ensures
        doc_values(*final(document)) == doc_values(*old(document)).push(
            (field, FieldValue::Text(text@)),
        ),
{
    document.add_text(Field::from_field_id(field), text)
}

/// Calls `DateTime::from_timestamp_millis` and `TantivyDocument::add_date`: appends the instant,
/// which the engine counts in nanoseconds.
#[verifier::external_body]
pub(crate) fn add_date(document: &mut TantivyDocument, field: u32, millis: u64)
    requires
        field < 0x1_0000,
        doc_values(*old(document)).len() < 8,
        millis <= MAX_MILLIS,
    ensures
        doc_values(*final(document)) == doc_values(*old(document)).push(
            (field, FieldValue::Date(millis * 1_000_000)),
        ),
{
    document.add_date(Field::from_field_id(field), DateTime::from_timestamp_millis(millis as i64))
}

/// Calls `TantivyDocument::get_first` and `Value::as_str`: the first value of the field, where it
/// is a text.
#[verifier::external_body]
pub(crate) fn first_text(document: &TantivyDocument, field: u32) -> (text: Option<String>)
    requires
        field < 0x1_0000,
    ensures
        match first_value(doc_values(*document), field) {
            Some(FieldValue::Text(value)) => text is Some && text->Some_0@ == value,
            _ => text is None,
        },
{
    let value = document.get_first(Field::from_field_id(field))?;
    value.as_str().map(|text| text.to_owned())
}

// ---------------------------------------------------------------------------------------------
// Indexes and their writers
// ---------------------------------------------------------------------------------------------

#[verifier::external_type_specification]
#[verifier::external_body]
pub struct ExIndex(tantivy::Index);

/// The fields of an index.
pub uninterp spec fn index_fields(index: Index) -> Seq<FieldSpec>;

/// Whether an index lives in memory, behind this handle alone, and all its commits succeeded: what
/// it holds then changes by no other hand.
pub uninterp spec fn index_is_private(index: Index) -> bool;

/// The documents that an index held after the last commit of a writer for this handle, or when it was
/// created. Where the index is private, that is what it holds.
pub uninterp spec fn index_docs(index: Index) -> Multiset<Doc>;

/// The stamp of the last commit of a writer for this handle of an index.
pub uninterp spec fn index_stamp(index: Index) -> u64;

/// A writer of documents: `tantivy::IndexWriter`.
#[verifier::external_body]
pub struct DocumentWriter {
    inner: IndexWriter,
}

/// The index that a writer writes to.
pub uninterp spec fn writer_index(writer: DocumentWriter) -> Index;

/// The documents that the index will hold once the writer commits.
pub uninterp spec fn writer_docs(writer: DocumentWriter) -> Multiset<Doc>;

/// Calls `Index::create_in_ram`: a new index in anonymous memory, without documents.
#[verifier::external_body]
pub(crate) fn create_index_in_ram(schema: Schema) -> (index: Index)
    requires
        described(schema_fields(schema)),
    ensures
        index_fields(index) == schema_fields(schema),
        index_is_private(index),
        index_docs(index) == Multiset::<Doc>::empty(),
{
    Index::create_in_ram(schema)
}

/// Calls `Index::writer`. A writer starts from what is committed. The engine refuses a second
/// writer while there is one, and a budget that is too small or too large.
#[verifier::external_body]
pub(crate) fn open_writer(index: &Index, memory_budget: usize) -> (writer: Result<
    DocumentWriter,
    TantivyError,
>)
    ensures
        writer matches Ok(w) ==> {
            &&& writer_index(w) == *index
            &&& index_is_private(*index) ==> writer_docs(w) == index_docs(*index)
        },
{
    index.writer(memory_budget).map(|inner| DocumentWriter { inner })
}

/// Calls `IndexWriter::add_document`, which takes the document over or, where it fails, leaves it
/// out.
#[verifier::external_body]
pub(crate) fn add_document(writer: &mut DocumentWriter, document: TantivyDocument) -> (added: Result<
    u64,
    TantivyError,
>)
    ensures
        writer_index(*final(writer)) == writer_index(*old(writer)),
        writer_docs(*final(writer)) == match added {
            Ok(_) => writer_docs(*old(writer)).insert(doc_values(document)),
            Err(_) => writer_docs(*old(writer)),
        },
{
    writer.inner.add_document(document)
}

/// What is left of a collection of documents without those that have the term.
pub open spec fn without_term(docs: Multiset<Doc>, field: u32, text: Seq<char>) -> Multiset<Doc> {
    docs.filter(|doc: Doc| !has_term(doc, field, text))
}

/// Calls `IndexWriter::delete_term`: drops every document, committed or added before the call, that
/// has the term.
#[verifier::external_body]
pub(crate) fn delete_term(writer: &mut DocumentWriter, field: u32, text: &str)
    requires
        holds_keywords(index_fields(writer_index(*old(writer))), field),
    ensures
        writer_index(*final(writer)) == writer_index(*old(writer)),
        writer_docs(*final(writer)) == without_term(writer_docs(*old(writer)), field, text@),
{
    writer.inner.delete_term(Term::from_field_text(Field::from_field_id(field), text));
}

/// Calls `IndexWriter::commit`, which publishes what the writer holds and returns the stamp of the
/// commit. After a failure nothing is promised of what the index holds. Stamps are numbered by all that
/// the engine does, also in the background, and which number comes next is not known.
#[verifier::external_body]
pub(crate) fn commit(writer: &mut DocumentWriter, _index: &mut Index) -> (stamp: Result<
    u64,
    TantivyError,
>)
    requires
        writer_index(*old(writer)) == *old(_index),
    ensures
        writer_index(*final(writer)) == *final(_index),
        index_fields(*final(_index)) == index_fields(*old(_index)),
        index_is_private(*final(_index)) == (stamp is Ok && index_is_private(*old(_index))),
        stamp matches Ok(number) ==> {
            &&& index_stamp(*final(_index)) == number
            &&& index_docs(*final(_index)) == writer_docs(*old(writer))
            &&& writer_docs(*final(writer)) == writer_docs(*old(writer))
        },
{
    writer.inner.commit()
}

// ---------------------------------------------------------------------------------------------
// Snapshots and queries
// ---------------------------------------------------------------------------------------------

#[verifier::external_type_specification]
#[verifier::external_body]
pub struct ExSearcher(tantivy::Searcher);

#[verifier::external_type_specification]
#[verifier::external_body]
pub struct ExBooleanQuery(tantivy::query::BooleanQuery);

#[verifier::external_type_specification]
#[verifier::external_body]
pub struct ExQueryParser(tantivy::query::QueryParser);

#[verifier::external_type_specification]
#[verifier::external_body]
pub struct ExQueryParserError(tantivy::query::QueryParserError);

/// The fields of a snapshot of an index.
pub uninterp spec fn searcher_fields(searcher: Searcher) -> Seq<FieldSpec>;

/// The documents of a snapshot, in the order of their addresses.
pub uninterp spec fn searcher_docs(searcher: Searcher) -> Seq<Doc>;

/// The position in `searcher_docs` of the document at an address, made of the ordinal of a segment
/// and an id within the segment; negative where the address is that of no document.
pub uninterp spec fn doc_position(searcher: Searcher, segment: u32, doc: u32) -> int;

/// The fields that a query parser knows.
pub uninterp spec fn parser_fields(parser: QueryParser) -> Seq<FieldSpec>;

/// The fields in which a query parser looks for words that name no field.
pub uninterp spec fn parser_defaults(parser: QueryParser) -> Seq<u32>;

/// Whether a text is a query in the language of the parser.
pub uninterp spec fn query_parses(parser: QueryParser, text: Seq<char>) -> bool;

/// Whether a document of texts and instants matches the query that the parser reads in a text without
/// asterisks. Such a query is about words, ranges and patterns, which each document has or has not on
/// its own.
pub uninterp spec fn doc_matches(parser: QueryParser, text: Seq<char>, doc: Doc) -> bool;

/// The positions of the documents of a snapshot that match the query that the parser reads in a
/// text. Where the text has asterisks this goes by the other documents as well: the words that begin
/// like a given one, for instance, are looked up in all of them, up to some number.
pub uninterp spec fn text_matches(searcher: Searcher, parser: QueryParser, text: Seq<char>) -> Set<
    int,
>;

/// A condition on documents.
pub enum Clause {
    /// Met by every document.
    All,
    /// Met by the documents that have the term.
    Term(u32, Seq<char>),
    /// Met by the documents that match the query that the parser reads in the text.
    Text(QueryParser, Seq<char>),
}

/// The conditions of a query, all of which a document must meet.
pub uninterp spec fn query_clauses(query: BooleanQuery) -> Seq<Clause>;

/// Whether a query speaks of each document on its own: it has no asterisks, and the document holds
/// texts and instants alone.
pub open spec fn is_about(text: Seq<char>, doc: Doc) -> bool {
    &&& !text.contains('*')
    &&& forall|i: int| 0 <= i < doc.len() ==> !((#[trigger] doc[i]).1 is Other)
}

/// Whether the document at a position matches the query that the parser reads in a text.
pub open spec fn matches_at(
    searcher: Searcher,
    parser: QueryParser,
    text: Seq<char>,
    position: int,
) -> bool {
    if is_about(text, searcher_docs(searcher)[position]) {
        doc_matches(parser, text, searcher_docs(searcher)[position])
    } else {
        text_matches(searcher, parser, text).contains(position)
    }
}

/// Whether the document at a position meets a condition.
pub open spec fn meets(searcher: Searcher, clause: Clause, position: int) -> bool {
    match clause {
        Clause::All => true,
        Clause::Term(field, text) => has_term(searcher_docs(searcher)[position], field, text),
        Clause::Text(parser, text) => matches_at(searcher, parser, text, position),
    }
}

/// Whether the document at a position meets all conditions.
pub open spec fn meets_all(searcher: Searcher, clauses: Seq<Clause>, position: int) -> bool {
    forall|i: int| 0 <= i < clauses.len() ==> meets(searcher, #[trigger] clauses[i], position)
}

/// Whether the conditions can be put to a snapshot with the given fields: they speak of those.
pub open spec fn askable(fields: Seq<FieldSpec>, clauses: Seq<Clause>) -> bool {
    &&& clauses.len() > 0
    &&& forall|i: int|
        0 <= i < clauses.len() ==> match #[trigger] clauses[i] {
            Clause::All => true,
            Clause::Term(field, _) => holds_keywords(fields, field),
            Clause::Text(parser, _) => parser_fields(parser) == fields,
        }
}

/// The number of decimal digits in a text.
pub open spec fn digits(text: Seq<char>) -> nat
    decreases text.len(),
{
    if text.len() == 0 {
        0
    } else if '0' <= text.last() <= '9' {
        digits(text.drop_last()) + 1
    } else {
        digits(text.drop_last())
    }
}

/// The most digits of a query with boosts whose scores are known to be numbers.
pub const MAX_BOOST_DIGITS: usize = 16;

/// Whether the scores of a query are numbers. Boosts are written with a caret and multiply scores.
/// With few digits they stay far below what a score can be, and without bound they may exceed it. A
/// document whose score is not a number is never found.
pub open spec fn has_scores(text: Seq<char>) -> bool {
    !text.contains('^') || digits(text) <= MAX_BOOST_DIGITS
}

/// Whether the scores of the conditions are numbers.
pub open spec fn have_scores(clauses: Seq<Clause>) -> bool {
    forall|i: int|
        0 <= i < clauses.len() ==> match #[trigger] clauses[i] {
            Clause::Text(_, text) => has_scores(text),
            _ => true,
        }
}

/// Whether a list of scores and positions ranks the documents that meet the conditions: no document
/// occurs twice, scores never increase, every document listed meets the conditions, and, where scores
/// are numbers, every document that meets them is listed.
pub open spec fn ranks(searcher: Searcher, clauses: Seq<Clause>, ranking: Seq<(u32, int)>) -> bool {
    &&& forall|i: int|
        0 <= i < ranking.len() ==> 0 <= (#[trigger] ranking[i]).1 < searcher_docs(searcher).len()
            && meets_all(searcher, clauses, ranking[i].1)
    &&& forall|i: int, j: int|
        0 <= i < j < ranking.len() ==> (#[trigger] ranking[i]).1 != (#[trigger] ranking[j]).1
            && score_rank(ranking[i].0) >= score_rank(ranking[j].0)
    &&& have_scores(clauses) ==> forall|position: int|
        0 <= position < searcher_docs(searcher).len() && #[trigger] meets_all(
            searcher,
            clauses,
            position,
        ) ==> exists|i: int| 0 <= i < ranking.len() && (#[trigger] ranking[i]).1 == position
}

/// Whether the engine may rank the documents of a snapshot so, by the scores that it gives them for
/// the conditions. Documents with equal scores it may rank in one order or another.
pub uninterp spec fn engine_ranks(
    searcher: Searcher,
    clauses: Seq<Clause>,
    ranking: Seq<(u32, int)>,
) -> bool;

/// The part of a ranking, or of any other list, that starts at an offset and has at most a given
/// length.
pub open spec fn page<T>(ranking: Seq<T>, offset: int, limit: int) -> Seq<T> {
    let start = if offset < ranking.len() {
        offset
    } else {
        ranking.len() as int
    };
    let end = if start + limit < ranking.len() {
        start + limit
    } else {
        ranking.len() as int
    };
    ranking.subrange(start, end)
}

/// A document that a search found: its score and its address.
#[derive(Clone, Copy)]
pub struct Hit {
    pub score: Score,
    pub segment: u32,
    pub doc: u32,
}

/// The scores and positions of hits.
pub open spec fn hit_positions(searcher: Searcher, hits: Seq<Hit>) -> Seq<(u32, int)> {
    hits.map_values(
        |hit: Hit| (hit.score.bits, doc_position(searcher, hit.segment, hit.doc)),
    )
}

/// The end of the farthest page that can be asked for: the engine allocates room for all results up
/// to the end of a page.
pub const MAX_RESULT_WINDOW: usize = usize::MAX / 64;

/// Calls `Index::reader_builder`, builds the reader and calls `IndexReader::searcher`: a snapshot of
/// what is committed.
#[verifier::external_body]
pub(crate) fn open_searcher(index: &Index) -> (searcher: Result<Searcher, TantivyError>)
    ensures
        searcher matches Ok(s) ==> {
            &&& searcher_fields(s) == index_fields(*index)
            &&& index_is_private(*index) ==> searcher_docs(s).to_multiset() == index_docs(*index)
        },
{
    let reader: IndexReader = index.reader_builder().try_into()?;
    Ok(reader.searcher())
}

/// Calls `Index::reader_builder`, builds the reader and calls `IndexReader::reload`, which changes
/// nothing that the index holds.
#[verifier::external_body]
pub(crate) fn reload_reader(index: &Index) -> (reloaded: Result<(), TantivyError>) {
    let reader: IndexReader = index.reader_builder().try_into()?;
    reader.reload()
}

/// Calls `QueryParser::for_index`.
#[verifier::external_body]
pub(crate) fn query_parser_for(index: &Index, default_fields: Vec<u32>) -> (parser: QueryParser)
    ensures
        parser_fields(parser) == index_fields(*index),
        parser_defaults(parser) == default_fields@,
{
    QueryParser::for_index(index, default_fields.into_iter().map(Field::from_field_id).collect())
}

/// Calls `QueryParser::parse_query`: a query with the text as its one condition, and an error if
/// and only if the text is not a query. The engine reads groups and negations by recursion and runs
/// out of stack where too many are nested. What the language of queries is, is left to the engine.
#[verifier::external_body]
pub(crate) fn parse_query(parser: &QueryParser, text: &str) -> (query: Result<
    BooleanQuery,
    QueryParserError,
>)
    requires
        is_shallow(text@),
        described(parser_fields(*parser)),
        forall|i: int|
            0 <= i < parser_defaults(*parser).len() ==> #[trigger] parser_defaults(*parser)[i]
                < parser_fields(*parser).len(),
    ensures
        query is Ok <==> query_parses(*parser, text@),
        query matches Ok(q) ==> query_clauses(q) == seq![Clause::Text(*parser, text@)],
{
    let query = parser.parse_query(text)?;
    Ok(BooleanQuery::new(vec![(Occur::Must, query)]))
}

/// Calls `TermQuery::new`: a query with the term as its one condition.
#[verifier::external_body]
pub(crate) fn term_query(field: u32, text: &str) -> (query: BooleanQuery)
    ensures
        query_clauses(query) == seq![Clause::Term(field, text@)],
{
    let term = Term::from_field_text(Field::from_field_id(field), text);
    let query = TermQuery::new(term, IndexRecordOption::Basic);
    BooleanQuery::new(vec![(Occur::Must, Box::new(query))])
}

/// Wraps `AllQuery`: a query that every document matches.
#[verifier::external_body]
pub(crate) fn all_query() -> (query: BooleanQuery)
    ensures
        query_clauses(query) == seq![Clause::All],
{
    BooleanQuery::new(vec![(Occur::Must, Box::new(AllQuery))])
}

/// Calls `BooleanQuery::new` with two required parts: a query with the conditions of both.
#[verifier::external_body]
pub(crate) fn both_queries(first: BooleanQuery, second: BooleanQuery) -> (query: BooleanQuery)
    ensures
        query_clauses(query) == query_clauses(first) + query_clauses(second),
{
    BooleanQuery::new(vec![(Occur::Must, Box::new(first)), (Occur::Must, Box::new(second))])
}

/// Calls `Searcher::search` for the documents with the highest scores: a page of the engine's ranking
/// of the documents that match, with its scores. The engine panics on an empty page. What the scores
/// are is left to the engine, and so is which of several documents with equal scores comes first,
/// which may differ between two calls. Each document on the page, in particular, matches each text of
/// the query.
#[verifier::external_body]
pub(crate) fn top_docs(
    searcher: &Searcher,
    query: &BooleanQuery,
    limit: usize,
    offset: usize,
) -> (hits: Result<Vec<Hit>, TantivyError>)
    requires
        askable(searcher_fields(*searcher), query_clauses(*query)),
        0 < limit,
        offset + limit <= MAX_RESULT_WINDOW,
    ensures
        hits matches Ok(found) ==> exists|ranking: Seq<(u32, int)>|
            {
                &&& #[trigger] ranks(*searcher, query_clauses(*query), ranking)
                &&& engine_ranks(*searcher, query_clauses(*query), ranking)
                &&& hit_positions(*searcher, found@) == page(ranking, offset as int, limit as int)
            },
        hits matches Ok(found) ==> forall|i: int, parser: QueryParser, text: Seq<char>|
            {
                let (_, position) = #[trigger] hit_positions(*searcher, found@)[i];
                let doc = searcher_docs(*searcher)[position];
                0 <= i < found@.len() && #[trigger] query_clauses(*query).contains(
                    Clause::Text(parser, text),
                ) ==> if is_about(text, doc) {
                    doc_matches(parser, text, doc)
                } else {
                    text_matches(*searcher, parser, text).contains(position)
                }
            },
{
    let collector = TopDocs::with_limit(limit).and_offset(offset).order_by_score();
    let found = searcher.search(query, &collector)?;
    let to_hit = |(score, at): (tantivy::Score, DocAddress)| Hit {
        score: Score { bits: score.to_bits() },
        segment: at.segment_ord,
        doc: at.doc_id,
    };
    Ok(found.into_iter().map(to_hit).collect())
}

/// Calls `Searcher::doc`: what is stored of the document at an address. The engine panics where
/// there is no such segment.
#[verifier::external_body]
pub(crate) fn fetch_document(searcher: &Searcher, segment: u32, doc: u32) -> (document: Result<
    TantivyDocument,
    TantivyError,
>)
    requires
        described(searcher_fields(*searcher)),
        0 <= doc_position(*searcher, segment, doc) < searcher_docs(*searcher).len(),
    ensures
        document matches Ok(found) ==> doc_values(found) == stored_part(
            searcher_fields(*searcher),
            searcher_docs(*searcher)[doc_position(*searcher, segment, doc)],
        ),
{
    searcher.doc(DocAddress::new(segment, doc))
}

} // verus!
