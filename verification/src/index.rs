//! The bookmark index.

use tantivy::query::{BooleanQuery, QueryParser};
use tantivy::{Index, Searcher, TantivyDocument};
use vstd::multiset::Multiset;
use vstd::prelude::*;
use vstd::seq_lib::group_to_multiset_ensures;

use crate::bookmark::{
    found_views, valid_pointer, BookmarkPointerInfo, Content, Found, IndexedBookmark,
    IndexedBookmarkContent, Pointer,
};
use crate::engine::{
    add_document, all_query, askable, both_queries, commit, delete_term, doc_position, doc_values,
    engine_ranks, fetch_document, first_text, has_term, hit_positions, holds_keywords, index_docs,
    index_fields, index_is_private, index_stamp, open_searcher, open_writer, page, parse_query,
    parser_defaults, parser_fields, query_clauses, query_parser_for, query_parses, ranks,
    reload_reader, searcher_docs, searcher_fields, term_query, top_docs, without_term, writer_docs,
    writer_index, Clause, Doc, DocumentWriter, Hit, MAX_RESULT_WINDOW, MAX_TERM_BYTES,
};
use crate::error::{IndexError, IndexWriteError};
use crate::ids::{EventId, RoomId, Score};
use crate::lookup::{
    lemma_bookmark_doc, lemma_lookup_finds, lemma_on_page, lemma_renewals_hit, lemma_stored_pointer,
};
use crate::model::{
    after_add, after_removal, after_renewal, all_bookmarks, answers, bookmark_doc, doc_pointer,
    docs_of, emptied, finds, hit, is_bookmark, is_pending, is_staged, listed, lists, matching,
    may_start, original_key, pointers, pointers_of, reads_page, renewals, snapshot_of,
    some_untouched, untouched, without_hits, Committed, IndexModel, Key, Staging,
};
use crate::nesting::{is_shallow, shallow};
use crate::schema::{bookmark_fields, bookmark_schema, fits, texts_fit, BookmarkSchema};

verus! {

/// The number of bookmarks that are asked for first where all with an id are looked up.
pub const FIRST_LOOKUP: usize = 100;

/// The memory that a writer may use before it writes a segment, in bytes.
pub const TANTIVY_INDEX_MEMORY_BUDGET: usize = 50_000_000;

/// The one index of bookmarks. Its view is what it holds.
pub struct BookmarkIndex {
    index: Index,
    schema: BookmarkSchema,
    query_parser: QueryParser,
    /// The bookmarks that were added since the last commit, and not removed since.
    uncommitted_adds: Vec<BookmarkPointerInfo>,
    /// The fields and ids by which committed bookmarks were removed since the last commit.
    uncommitted_removes: Vec<(u32, EventId)>,
    /// What came of each try at an operation.
    tries: Ghost<Seq<Result<(), IndexError>>>,
}

/// What bookmarks are, as values of the model.
pub open spec fn pointer_views(infos: Seq<BookmarkPointerInfo>) -> Seq<Pointer> {
    infos.map_values(|info: BookmarkPointerInfo| info@)
}

/// The keys in a list of fields and ids.
pub open spec fn key_views(keys: Seq<(u32, EventId)>) -> Set<Key> {
    Set::new(
        |key: Key|
            exists|i: int|
                0 <= i < keys.len() && (#[trigger] keys[i]).0 == key.0 && keys[i].1@ == key.1,
    )
}

/// One more key.
proof fn lemma_key_views_push(keys: Seq<(u32, EventId)>, more: (u32, EventId))
    ensures
        key_views(keys.push(more)) == key_views(keys).insert((more.0, more.1@)),
{
    let all = keys.push(more);
    assert forall|key: Key| key_views(all).contains(key) implies key_views(keys).insert(
        (more.0, more.1@),
    ).contains(key) by {
        let i = choose|i: int|
            0 <= i < all.len() && (#[trigger] all[i]).0 == key.0 && all[i].1@ == key.1;
        if i < keys.len() {
            assert(keys[i].0 == key.0);
        }
    }
    assert forall|key: Key| key_views(keys).insert((more.0, more.1@)).contains(key) implies key_views(
        all,
    ).contains(key) by {
        if key_views(keys).contains(key) {
            let i = choose|i: int|
                0 <= i < keys.len() && (#[trigger] keys[i]).0 == key.0 && keys[i].1@ == key.1;
            assert(all[i].0 == key.0);
        } else {
            assert(all[keys.len() as int].0 == key.0);
        }
    }
    assert(key_views(all) =~= key_views(keys).insert((more.0, more.1@)));
}

impl View for BookmarkIndex {
    type V = IndexModel;

    closed spec fn view(&self) -> IndexModel {
        IndexModel {
            committed: Committed {
                private: index_is_private(self.index),
                docs: index_docs(self.index),
            },
            pending: pointer_views(self.uncommitted_adds@),
            removed: key_views(self.uncommitted_removes@),
        }
    }
}

/// Whether a query stands for all bookmarks.
pub open spec fn is_wildcard(query: Seq<char>) -> bool {
    query.len() == 0 || query == "*"@
}

/// The conditions of a search: the words of the query are required, and so is the room.
pub open spec fn search_clauses(
    parser: QueryParser,
    query: Seq<char>,
    room_id: Option<Seq<char>>,
) -> Seq<Clause> {
    let room_field = bookmark_schema().target_room_id;
    match room_id {
        Some(room) => if is_wildcard(query) {
            seq![Clause::Term(room_field, room)]
        } else {
            seq![Clause::Text(parser, query), Clause::Term(room_field, room)]
        },
        None => if is_wildcard(query) {
            seq![Clause::All]
        } else {
            seq![Clause::Text(parser, query)]
        },
    }
}

/// The text of a room id that may be given.
pub open spec fn room_text(room_id: Option<&RoomId>) -> Option<Seq<char>> {
    match room_id {
        Some(room) => Some(room@),
        None => None,
    }
}

/// The offset at which results start.
pub open spec fn start_of(pagination_offset: Option<usize>) -> int {
    match pagination_offset {
        Some(offset) => offset as int,
        None => 0,
    }
}

/// Whether a page can be asked for: it is not empty and does not end beyond the farthest one.
pub open spec fn page_fits(max_number_of_results: usize, pagination_offset: Option<usize>) -> bool {
    &&& 0 < max_number_of_results
    &&& start_of(pagination_offset) + max_number_of_results <= MAX_RESULT_WINDOW
}

/// Whether a query can be read: it is not nested too deeply, and is one.
pub open spec fn readable(parser: QueryParser, query: Seq<char>) -> bool {
    is_wildcard(query) || is_shallow(query) && query_parses(parser, query)
}

/// Whether a search of an index may have the given outcome: it fails to read the query if and only if
/// that is nested too deeply or is none, it may fail to read the index, and otherwise it answers the
/// query.
pub open spec fn searched(
    index: BookmarkIndex,
    query: Seq<char>,
    max_number_of_results: usize,
    pagination_offset: Option<usize>,
    room_id: Option<Seq<char>>,
    results: Result<Vec<IndexedBookmark>, IndexError>,
) -> bool {
    &&& (results matches Err(error) && error is QueryTooDeep) <==> !is_wildcard(query)
        && !is_shallow(query)
    &&& (results matches Err(error) && error is QueryParserError) <==> is_shallow(query)
        && !readable(index.parser(), query)
    &&& match results {
        Ok(found) => answers(
            index@.committed,
            search_clauses(index.parser(), query, room_id),
            start_of(pagination_offset),
            max_number_of_results as int,
            found_views(found@),
        ),
        Err(error) => {
            ||| error is QueryTooDeep
            ||| error is QueryParserError
            ||| error is TantivyError
            ||| error is IdParsing && !index@.committed.private
        },
    }
}

/// Whether a lookup of an id in a field of an index may have the given outcome: it may fail to read
/// the index, and otherwise it brings the committed bookmarks with that id, up to the limit.
pub open spec fn looked_up(
    index: BookmarkIndex,
    field: u32,
    id: Seq<char>,
    limit: usize,
    results: Result<Vec<IndexedBookmark>, IndexError>,
) -> bool {
    match results {
        Ok(found) => {
            &&& answers(
                index@.committed,
                seq![Clause::Term(field, id)],
                0,
                limit as int,
                found_views(found@),
            )
            &&& index@.committed.private ==> finds(
                index@.committed.docs,
                field,
                id,
                limit as int,
                found_views(found@),
            )
        },
        Err(error) => error is TantivyError || error is IdParsing && !index@.committed.private,
    }
}

/// Whether the results are all that answer a lookup of a key, on a page that is not full.
pub open spec fn all_answers(
    committed: Committed,
    key: Key,
    limit: int,
    results: Seq<Found>,
) -> bool {
    &&& answers(committed, seq![Clause::Term(key.0, key.1)], 0, limit, results)
    &&& results.len() < limit
}

/// Whether a lookup of all bookmarks with a key may have the given outcome: it may fail to read the
/// index, or because there are more than can be asked for, and otherwise it brings all of them.
pub open spec fn looked_up_all(
    index: BookmarkIndex,
    key: Key,
    results: Result<Vec<IndexedBookmark>, IndexError>,
) -> bool {
    match results {
        Ok(found) => {
            &&& exists|limit: int| #[trigger]
                all_answers(index@.committed, key, limit, found_views(found@))
            &&& index@.committed.private ==> lists(
                matching(index@.committed.docs, key.0, key.1),
                found_views(found@),
            )
        },
        Err(error) => may_not_look_up(index@.committed, key, error),
    }
}

/// Whether the lookup of all bookmarks with a key may fail in the given way.
pub open spec fn may_not_look_up(committed: Committed, key: Key, error: IndexError) -> bool {
    ||| error is TantivyError
    ||| error is IdParsing && !committed.private
    ||| error is IO && (committed.private ==> MAX_RESULT_WINDOW <= matching(
        committed.docs,
        key.0,
        key.1,
    ).len())
}

/// Whether a bookmark event counts as indexed, given all committed bookmarks with its id.
pub open spec fn counted(model: IndexModel, results: Seq<Found>, event_id: Seq<char>) -> bool {
    ||| is_pending(model.pending, event_id)
    ||| exists|i: int|
        0 <= i < results.len() && untouched(model.removed, (#[trigger] results[i]).pointer)
}

/// Whether a bookmark event counts as indexed, given what a lookup of all committed bookmarks with
/// its id brought.
pub open spec fn listed_by(
    model: IndexModel,
    lookup: Result<Vec<IndexedBookmark>, IndexError>,
    event_id: Seq<char>,
) -> bool {
    match lookup {
        Ok(results) => counted(model, found_views(results@), event_id),
        Err(_) => true,
    }
}

/// Whether an index may say, or deny, that a bookmark event is indexed: it goes by a lookup, and
/// where that did not fail it is right.
pub open spec fn says(
    index: BookmarkIndex,
    event_id: Seq<char>,
    lookup: Result<Vec<IndexedBookmark>, IndexError>,
    indexed: bool,
) -> bool {
    &&& looked_up_all(index, (bookmark_schema().event_id, event_id), lookup)
    &&& indexed == listed_by(index@, lookup, event_id)
    &&& lookup is Ok && index@.committed.private ==> indexed == listed(
        index@.committed,
        staged_as(index@, index@.committed.docs),
        event_id,
    )
}

/// What is pending, with the given documents.
pub open spec fn staged_as(model: IndexModel, docs: Multiset<Doc>) -> Staging {
    Staging { docs, pending: model.pending, removed: model.removed }
}

/// Where all committed bookmarks with its id are at hand, a bookmark event counts as indexed if and
/// only if it is.
pub proof fn lemma_counted(model: IndexModel, results: Seq<Found>, event_id: Seq<char>)
    requires
        lists(matching(model.committed.docs, bookmark_schema().event_id, event_id), results),
    ensures
        forall|docs: Multiset<Doc>|
            counted(model, results, event_id) == #[trigger] listed(
                model.committed,
                staged_as(model, docs),
                event_id,
            ),
{
    broadcast use group_to_multiset_ensures;

    let found = matching(model.committed.docs, bookmark_schema().event_id, event_id);
    let docs = choose|docs: Seq<Doc>| #[trigger]
        docs.to_multiset() == found && pointers_of(docs, results);
    if some_untouched(found, model.removed) {
        let doc = choose|doc: Doc| #[trigger]
            found.contains(doc) && doc_pointer(doc) is Some && untouched(
                model.removed,
                doc_pointer(doc)->Some_0,
            );
        assert(docs.contains(doc));
        let i = choose|i: int| 0 <= i < docs.len() && docs[i] == doc;
        assert(untouched(model.removed, results[i].pointer));
    }
    if exists|i: int|
        0 <= i < results.len() && untouched(model.removed, (#[trigger] results[i]).pointer) {
        let i = choose|i: int|
            0 <= i < results.len() && untouched(model.removed, (#[trigger] results[i]).pointer);
        assert(docs.contains(docs[i]));
        assert(found.contains(docs[i]));
    }
}

/// Whether all bookmarks fit a document with the given content.
pub open spec fn all_fit(bookmarks: Seq<Pointer>, content: Content) -> bool {
    forall|i: int| 0 <= i < bookmarks.len() ==> texts_fit(#[trigger] bookmarks[i], content)
}

/// Whether a bookmark is one of those that a removal by the field and the id removes.
fn is_hit(info: &BookmarkPointerInfo, field: u32, event_id: &EventId) -> (is_hit: bool)
    requires
        field < 3,
    ensures
        is_hit == hit(info@, (field, event_id@)),
{
    let id = if field == 0 {
        &info.event_id
    } else if field == 1 {
        &info.original_event_id
    } else {
        &info.target_event_id
    };
    id.same_as(event_id) && event_id.as_str().as_bytes().len() <= MAX_TERM_BYTES
}

/// Whether a query stands for all bookmarks.
fn wildcard(query: &str) -> (all: bool)
    ensures
        all == is_wildcard(query@),
{
    let text = query.to_owned();
    proof {
        reveal_strlit("*");
    }
    query.is_empty() || text == "*".to_owned()
}

/// The bookmark in a document. Fails where the document lacks one of the ids, or one is not valid.
pub fn read_bookmark(schema: &BookmarkSchema, document: &TantivyDocument, score: Score) -> (bookmark:
    Result<IndexedBookmark, IndexError>)
    requires
        schema@ == bookmark_schema(),
    ensures
        match bookmark {
            Ok(found) => {
                &&& doc_pointer(doc_values(*document)) == Some(found@.pointer)
                &&& found.score == score
            },
            Err(error) => {
                &&& doc_pointer(doc_values(*document)) is None
                &&& error is IdParsing
            },
        },
{
    let event_id = match first_text(document, schema.primary_key()) {
        Some(text) => EventId::parse(text.as_str()),
        None => None,
    };
    let original_event_id = match first_text(document, schema.deletion_key()) {
        Some(text) => EventId::parse(text.as_str()),
        None => None,
    };
    let target_event_id = match first_text(document, schema.target_event_id_key()) {
        Some(text) => EventId::parse(text.as_str()),
        None => None,
    };
    let target_room_id = match first_text(document, schema.target_room_id_key()) {
        Some(text) => RoomId::parse(text.as_str()),
        None => None,
    };
    match (event_id, original_event_id, target_event_id, target_room_id) {
        (Some(event_id), Some(original_event_id), Some(target_event_id), Some(target_room_id)) => {
            Ok(
                IndexedBookmark {
                    event_id,
                    original_event_id,
                    target_event_id,
                    target_room_id,
                    score,
                },
            )
        },
        _ => Err(IndexError::IdParsing),
    }
}

/// The bookmarks in the documents that a search hit, in the order of the hits and with their scores.
/// Fails where one of the documents is not that of a bookmark, or where the engine fails to fetch one.
pub fn read_hits(schema: &BookmarkSchema, searcher: &Searcher, hits: &Vec<Hit>) -> (results: Result<
    Vec<IndexedBookmark>,
    IndexError,
>)
    requires
        schema@ == bookmark_schema(),
        searcher_fields(*searcher) == bookmark_fields(),
        forall|i: int|
            0 <= i < hits@.len() ==> 0 <= (#[trigger] hit_positions(*searcher, hits@)[i]).1
                < searcher_docs(*searcher).len(),
    ensures
        match results {
            Ok(found) => {
                &&& found@.len() == hits@.len()
                &&& forall|i: int|
                    0 <= i < found@.len() ==> doc_pointer(
                        searcher_docs(*searcher)[hit_positions(*searcher, hits@)[i].1],
                    ) == Some((#[trigger] found@[i])@.pointer) && found@[i].score == hits@[i].score
            },
            Err(error) => {
                ||| error is TantivyError
                ||| error is IdParsing && exists|i: int|
                    0 <= i < hits@.len() && doc_pointer(
                        searcher_docs(*searcher)[(#[trigger] hit_positions(*searcher, hits@)[i]).1],
                    ) is None
            },
        },
{
    let mut results: Vec<IndexedBookmark> = Vec::new();
    let mut i: usize = 0;
    while i < hits.len()
        invariant
            schema@ == bookmark_schema(),
            searcher_fields(*searcher) == bookmark_fields(),
            forall|k: int|
                0 <= k < hits@.len() ==> 0 <= (#[trigger] hit_positions(*searcher, hits@)[k]).1
                    < searcher_docs(*searcher).len(),
            i <= hits@.len(),
            results@.len() == i,
            forall|k: int|
                0 <= k < i ==> doc_pointer(
                    searcher_docs(*searcher)[hit_positions(*searcher, hits@)[k].1],
                ) == Some((#[trigger] results@[k])@.pointer) && results@[k].score == hits@[k].score,
        decreases hits@.len() - i,
    {
        let hit = hits[i];
        let ghost position = hit_positions(*searcher, hits@)[i as int].1;
        proof {
            assert(position == doc_position(*searcher, hit.segment, hit.doc));
            lemma_stored_pointer(searcher_docs(*searcher)[position]);
        }
        let document = match fetch_document(searcher, hit.segment, hit.doc) {
            Ok(document) => document,
            Err(error) => return Err(IndexError::TantivyError(error)),
        };
        match read_bookmark(schema, &document, hit.score) {
            Ok(bookmark) => {
                results.push(bookmark);
            },
            Err(error) => return Err(error),
        }
        i += 1;
    }
    Ok(results)
}

/// A writer for a bookmark index. Its view are the documents that the index will hold once the
/// writer commits.
pub struct BookmarkIndexWriter {
    inner: DocumentWriter,
}

impl View for BookmarkIndexWriter {
    type V = Multiset<Doc>;

    closed spec fn view(&self) -> Multiset<Doc> {
        writer_docs(self.inner)
    }
}

impl BookmarkIndexWriter {
    /// Whether this writer writes to the given index, and nothing but bookmarks.
    pub closed spec fn writes_to(&self, index: &BookmarkIndex) -> bool {
        &&& writer_index(self.inner) == index.engine()
        &&& index@.committed.private ==> all_bookmarks(self@)
    }
}

/// What is about to be committed.
pub open spec fn staging_of(index: BookmarkIndex, writer: BookmarkIndexWriter) -> Staging {
    Staging { docs: writer@, pending: index@.pending, removed: index@.removed }
}

/// Whether two states of an index differ at most in what was added and removed since the last
/// commit.
pub open spec fn same_commit(before: BookmarkIndex, after: BookmarkIndex) -> bool {
    &&& after@.committed == before@.committed
    &&& after.parser() == before.parser()
    &&& after.engine() == before.engine()
}

impl BookmarkIndex {
    /// Whether the parts of the index belong together, and whatever is known to be committed are
    /// bookmarks.
    pub closed spec fn wf(&self) -> bool {
        &&& self.schema@ == bookmark_schema()
        &&& index_fields(self.index) == bookmark_fields()
        &&& parser_fields(self.query_parser) == bookmark_fields()
        &&& parser_defaults(self.query_parser) == bookmark_schema().default_search_fields
        &&& self@.committed.private ==> all_bookmarks(self@.committed.docs)
        &&& forall|i: int|
            0 <= i < self.uncommitted_removes@.len() ==> (#[trigger] self.uncommitted_removes@[i]).0
                < 3
    }

    /// The parser of queries, which looks for words in the bodies of bookmarks.
    pub closed spec fn parser(&self) -> QueryParser {
        self.query_parser
    }

    /// The stamp of the last commit to this index.
    pub open spec fn stamp(&self) -> u64 {
        index_stamp(self.engine())
    }

    /// What came of each try at an operation on this index, since there is this handle of it.
    pub closed spec fn tries(&self) -> Seq<Result<(), IndexError>> {
        self.tries@
    }

    /// The schema of this index.
    pub fn schema(&self) -> (schema: &BookmarkSchema)
        requires
            self.wf(),
        ensures
            schema@ == bookmark_schema(),
    {
        &self.schema
    }

    /// The engine's index.
    pub closed spec fn engine(&self) -> Index {
        self.index
    }

    /// What the invariant of an index says of what it holds.
    pub proof fn lemma_wf(self)
        requires
            self.wf(),
        ensures
            self@.committed.private ==> all_bookmarks(self@.committed.docs),
            parser_fields(self.parser()) == bookmark_fields(),
            parser_defaults(self.parser()) == bookmark_schema().default_search_fields,
            self@.committed.private == index_is_private(self.engine()),
            self@.committed.docs == index_docs(self.engine()),
    {
    }

    /// An index over an engine's index with the fields of a bookmark schema.
    pub fn new_with(index: Index, schema: BookmarkSchema) -> (result: BookmarkIndex)
        requires
            schema@ == bookmark_schema(),
            index_fields(index) == bookmark_fields(),
            index_is_private(index) ==> all_bookmarks(index_docs(index)),
        ensures
            result.wf(),
            result.engine() == index,
            result@ == (IndexModel {
                committed: Committed {
                    private: index_is_private(index),
                    docs: index_docs(index),
                },
                pending: Seq::empty(),
                removed: Set::empty(),
            }),
    {
        let query_parser = query_parser_for(&index, schema.default_search_fields());
        let result = BookmarkIndex {
            index,
            schema,
            query_parser,
            uncommitted_adds: Vec::new(),
            uncommitted_removes: Vec::new(),
            tries: Ghost(Seq::empty()),
        };
        assert(result@.pending =~= Seq::empty());
        assert(result@.removed =~= Set::empty());
        result
    }

    /// Searches the index and returns at most the given number of results, by descending score. If
    /// an offset is given the results start there: with a maximum of 3 and an offset of 10 the
    /// results are the 11th, the 12th and the 13th, if there are as many. If a room is given, only
    /// bookmarks of events of that room are returned.
    pub fn search(
        &self,
        query: &str,
        max_number_of_results: usize,
        pagination_offset: Option<usize>,
        room_id_filter: Option<&RoomId>,
    ) -> (results: Result<Vec<IndexedBookmark>, IndexError>)
        requires
            self.wf(),
            page_fits(max_number_of_results, pagination_offset),
        ensures
            searched(
                *self,
                query@,
                max_number_of_results,
                pagination_offset,
                room_text(room_id_filter),
                results,
            ),
    {
        // The words must be required, not optional: next to a required room they would otherwise
        // not matter.
        let base_query = if wildcard(query) {
            None
        } else if !shallow(query) {
            return Err(IndexError::QueryTooDeep);
        } else {
            match parse_query(&self.query_parser, query) {
                Ok(parsed) => Some(parsed),
                Err(error) => return Err(IndexError::QueryParserError(error)),
            }
        };
        let room_filter_query = match room_id_filter {
            Some(room_id) => Some(term_query(self.schema.target_room_id_key(), room_id.as_str())),
            None => None,
        };
        let full_query = match (base_query, room_filter_query) {
            (Some(base), Some(room_filter)) => both_queries(base, room_filter),
            (Some(base), None) => base,
            (None, Some(room_filter)) => room_filter,
            (None, None) => all_query(),
        };
        assert(query_clauses(full_query) =~= search_clauses(
            self.parser(),
            query@,
            room_text(room_id_filter),
        ));
        self.run_query(&full_query, max_number_of_results, pagination_offset)
    }

    /// Runs a query and reconstructs the matching bookmarks.
    fn run_query(
        &self,
        query: &BooleanQuery,
        max_number_of_results: usize,
        pagination_offset: Option<usize>,
    ) -> (results: Result<Vec<IndexedBookmark>, IndexError>)
        requires
            self.wf(),
            askable(bookmark_fields(), query_clauses(*query)),
            page_fits(max_number_of_results, pagination_offset),
        ensures
            match results {
                Ok(found) => answers(
                    self@.committed,
                    query_clauses(*query),
                    start_of(pagination_offset),
                    max_number_of_results as int,
                    found_views(found@),
                ),
                Err(error) => error is TantivyError || error is IdParsing && !self@.committed.private,
            },
    {
        let searcher = match open_searcher(&self.index) {
            Ok(searcher) => searcher,
            Err(error) => return Err(IndexError::TantivyError(error)),
        };
        let offset: usize = match pagination_offset {
            Some(offset) => offset,
            None => 0,
        };
        let hits = match top_docs(&searcher, query, max_number_of_results, offset) {
            Ok(hits) => hits,
            Err(error) => return Err(IndexError::TantivyError(error)),
        };
        let ghost limit = max_number_of_results as int;
        let ghost ranking = choose|ranking: Seq<(u32, int)>|
            {
                &&& #[trigger] ranks(searcher, query_clauses(*query), ranking)
                &&& engine_ranks(searcher, query_clauses(*query), ranking)
                &&& hit_positions(searcher, hits@) == page(ranking, offset as int, limit)
            };
        let ghost on_page = page(ranking, offset as int, limit);
        assert forall|i: int| 0 <= i < hits@.len() implies 0 <= (#[trigger] hit_positions(
            searcher,
            hits@,
        )[i]).1 < searcher_docs(searcher).len() by {
            lemma_on_page(ranking, offset as int, limit, i);
        }
        let results = match read_hits(&self.schema, &searcher, &hits) {
            Ok(results) => results,
            Err(error) => {
                proof {
                    if error is IdParsing && self@.committed.private {
                        let i = choose|i: int|
                            0 <= i < hits@.len() && doc_pointer(
                                searcher_docs(searcher)[(#[trigger] hit_positions(
                                    searcher,
                                    hits@,
                                )[i]).1],
                            ) is None;
                        lemma_committed_doc(
                            self@.committed,
                            searcher,
                            hit_positions(searcher, hits@)[i].1,
                        );
                    }
                }
                return Err(error);
            },
        };
        proof {
            let views = found_views(results@);
            assert(hit_positions(searcher, hits@).len() == hits@.len());
            assert forall|k: int| 0 <= k < views.len() implies doc_pointer(
                searcher_docs(searcher)[on_page[k].1],
            ) == Some((#[trigger] views[k]).pointer) && views[k].score == on_page[k].0 by {
                assert(views[k] == results@[k]@);
                assert(on_page[k] == hit_positions(searcher, hits@)[k]);
            }
            assert(reads_page(searcher, ranking, offset as int, limit, views));
        }
        Ok(results)
    }
}

/// A document of a snapshot of a private index holds valid ids.
proof fn lemma_committed_doc(committed: Committed, searcher: Searcher, position: int)
    requires
        committed.private,
        all_bookmarks(committed.docs),
        snapshot_of(committed, searcher),
        0 <= position < searcher_docs(searcher).len(),
    ensures
        doc_pointer(searcher_docs(searcher)[position]) is Some,
{
    broadcast use group_to_multiset_ensures;

    let doc = searcher_docs(searcher)[position];
    assert(searcher_docs(searcher).contains(doc));
    assert(committed.docs.contains(doc));
    let (pointer, content) = choose|pointer: Pointer, content: Content|
        {
            &&& doc == #[trigger] bookmark_doc(pointer, content)
            &&& valid_pointer(pointer)
        };
    lemma_bookmark_doc(pointer, content);
}

impl BookmarkIndex {
    /// Notes what came of a try at an operation.
    pub(crate) fn note_try(&mut self, outcome: Ghost<Result<(), IndexError>>)
        requires
            old(self).wf(),
        ensures
            final(self).wf(),
            same_commit(*old(self), *final(self)),
            final(self)@ == old(self)@,
            final(self).tries() == old(self).tries().push(outcome@),
            forall|writer: BookmarkIndexWriter|
                writer.writes_to(old(self)) ==> #[trigger] writer.writes_to(final(self)),
    {
        self.tries = Ghost(self.tries@.push(outcome@));
    }

    /// A writer for this index. The engine allows one writer at a time, which starts from what is
    /// committed: nothing is pending once there is a new one.
    pub fn get_writer(&mut self) -> (writer: Result<BookmarkIndexWriter, IndexError>)
        requires
            old(self).wf(),
        ensures
            final(self).wf(),
            same_commit(*old(self), *final(self)),
            final(self).tries() == old(self).tries(),
            match writer {
                Ok(w) => w.writes_to(final(self)) && may_start(
                    final(self)@,
                    staging_of(*final(self), w),
                ),
                Err(error) => error is TantivyError && final(self)@ == old(self)@,
            },
    {
        match open_writer(&self.index, TANTIVY_INDEX_MEMORY_BUDGET) {
            Ok(inner) => {
                self.uncommitted_adds.clear();
                self.uncommitted_removes.clear();
                assert(self@.pending =~= Seq::empty());
                assert(self@.removed =~= Set::empty());
                Ok(BookmarkIndexWriter { inner })
            },
            Err(error) => Err(IndexError::TantivyError(error)),
        }
    }

    /// Commits what the writer holds, and returns the stamp of the commit. A snapshot taken before does
    /// not show it.
    pub fn commit(&mut self, writer: &mut BookmarkIndexWriter) -> (stamp: Result<u64, IndexError>)
        requires
            old(self).wf(),
            old(writer).writes_to(old(self)),
        ensures
            final(self).wf(),
            final(self).parser() == old(self).parser(),
            final(self).tries() == old(self).tries(),
            match stamp {
                Ok(number) => {
                    &&& number == final(self).stamp()
                    &&& final(self)@.committed.private == old(self)@.committed.private
                    &&& final(self)@.pending == Seq::<Pointer>::empty()
                    &&& final(self)@.removed == Set::<Key>::empty()
                    &&& final(self)@.committed.docs == old(writer)@
                    &&& final(writer).writes_to(final(self))
                    &&& final(writer)@ == old(writer)@
                },
                Err(error) => {
                    &&& error is TantivyError
                    &&& !final(self)@.committed.private
                    &&& final(self)@.pending == old(self)@.pending
                    &&& final(self)@.removed == old(self)@.removed
                },
            },
    {
        match commit(&mut writer.inner, &mut self.index) {
            Ok(stamp) => {
                self.uncommitted_adds.clear();
                self.uncommitted_removes.clear();
                assert(self@.pending =~= Seq::empty());
                assert(self@.removed =~= Set::empty());
                Ok(stamp)
            },
            Err(error) => Err(IndexError::TantivyError(error)),
        }
    }

    /// Commits what the writer holds, and has it shown from now on. It fails either before the commit
    /// or, where only showing it failed, after.
    pub fn commit_and_reload(&mut self, writer: &mut BookmarkIndexWriter) -> (stamp: Result<
        u64,
        IndexError,
    >)
        requires
            old(self).wf(),
            old(writer).writes_to(old(self)),
        ensures
            final(self).wf(),
            final(self).parser() == old(self).parser(),
            final(self).tries() == old(self).tries(),
            match stamp {
                Ok(number) => {
                    &&& number == final(self).stamp()
                    &&& final(self)@.committed.private == old(self)@.committed.private
                    &&& final(self)@.pending == Seq::<Pointer>::empty()
                    &&& final(self)@.removed == Set::<Key>::empty()
                    &&& final(self)@.committed.docs == old(writer)@
                    &&& final(writer).writes_to(final(self))
                    &&& final(writer)@ == old(writer)@
                },
                Err(error) => {
                    &&& error is TantivyError
                    &&& {
                        ||| {
                            &&& !final(self)@.committed.private
                            &&& final(self)@.pending == old(self)@.pending
                            &&& final(self)@.removed == old(self)@.removed
                        }
                        ||| {
                            &&& final(self)@.committed.private == old(self)@.committed.private
                            &&& final(self)@.pending == Seq::<Pointer>::empty()
                            &&& final(self)@.removed == Set::<Key>::empty()
                            &&& final(self)@.committed.docs == old(writer)@
                        }
                    }
                },
            },
    {
        match self.commit(writer) {
            Ok(stamp) => match reload_reader(&self.index) {
                Ok(_) => Ok(stamp),
                Err(error) => Err(IndexError::TantivyError(error)),
            },
            Err(error) => Err(error),
        }
    }

    /// Finds the committed bookmarks whose given key is the given id.
    pub fn find_by_event_id_field(
        &self,
        field: u32,
        event_id: &EventId,
        max_number_of_results: usize,
    ) -> (results: Result<Vec<IndexedBookmark>, IndexError>)
        requires
            self.wf(),
            holds_keywords(bookmark_fields(), field),
            page_fits(max_number_of_results, None),
        ensures
            looked_up(*self, field, event_id@, max_number_of_results, results),
    {
        let query = term_query(field, event_id.as_str());
        let results = self.run_query(&query, max_number_of_results, None);
        proof {
            if let Ok(ref found) = results {
                let limit = max_number_of_results as int;
                let clauses = seq![Clause::Term(field, event_id@)];
                let (searcher, ranking) = choose|searcher: Searcher, ranking: Seq<(u32, int)>|
                    {
                        &&& snapshot_of(self@.committed, searcher)
                        &&& #[trigger] ranks(searcher, clauses, ranking)
                        &&& engine_ranks(searcher, clauses, ranking)
                        &&& reads_page(searcher, ranking, 0, limit, found_views(found@))
                    };
                lemma_lookup_finds(
                    searcher,
                    field,
                    event_id@,
                    ranking,
                    limit,
                    found_views(found@),
                );
            }
        }
        results
    }

    /// Finds all committed bookmarks whose given key is the given id. The page that they are on is
    /// asked for anew, with more room, for as long as it comes back full.
    pub fn find_all_by_event_id_field(&self, field: u32, event_id: &EventId) -> (results: Result<
        Vec<IndexedBookmark>,
        IndexError,
    >)
        requires
            self.wf(),
            holds_keywords(bookmark_fields(), field),
        ensures
            looked_up_all(*self, (field, event_id@), results),
            results matches Err(error) && !(error is IO) ==> exists|limit: usize| #[trigger]
                call_ensures(
                    BookmarkIndex::find_by_event_id_field,
                    (self, field, event_id, limit),
                    results,
                ),
            results matches Err(error) && error is IO ==> exists|found: Vec<IndexedBookmark>|
                found@.len() == MAX_RESULT_WINDOW && #[trigger] call_ensures(
                    BookmarkIndex::find_by_event_id_field,
                    (self, field, event_id, MAX_RESULT_WINDOW),
                    Ok::<Vec<IndexedBookmark>, IndexError>(found),
                ),
    {
        let ghost key = (field, event_id@);
        let mut limit: usize = FIRST_LOOKUP;
        loop
            invariant
                self.wf(),
                holds_keywords(bookmark_fields(), field),
                key == (field, event_id@),
                0 < limit <= MAX_RESULT_WINDOW,
            decreases MAX_RESULT_WINDOW - limit,
        {
            let found = match self.find_by_event_id_field(field, event_id, limit) {
                Ok(found) => found,
                Err(error) => return Err(error),
            };
            if found.len() < limit {
                assert(found_views(found@).len() < limit);
                assert(all_answers(self@.committed, key, limit as int, found_views(found@)));
                return Ok(found);
            }
            assert(found_views(found@).len() == found@.len());
            if limit == MAX_RESULT_WINDOW {
                return Err(IndexError::IO("too many bookmarks".to_owned()));
            }
            limit = if limit > MAX_RESULT_WINDOW / 2 {
                MAX_RESULT_WINDOW
            } else {
                2 * limit
            };
        }
    }

    /// The committed bookmarks whose first version is the given event.
    pub fn get_events_to_be_removed(&self, event_id: &EventId) -> (results: Result<
        Vec<IndexedBookmark>,
        IndexError,
    >)
        requires
            self.wf(),
        ensures
            looked_up_all(*self, original_key(event_id@), results),
    {
        self.find_all_by_event_id_field(self.schema.deletion_key(), event_id)
    }

    /// Whether no removal since the last commit removed a bookmark.
    fn is_untouched(&self, info: &BookmarkPointerInfo) -> (is_untouched: bool)
        requires
            self.wf(),
        ensures
            is_untouched == untouched(self@.removed, info@),
    {
        let mut i: usize = 0;
        while i < self.uncommitted_removes.len()
            invariant
                self.wf(),
                i <= self.uncommitted_removes@.len(),
                forall|k: int|
                    0 <= k < i ==> !hit(
                        info@,
                        (
                            (#[trigger] self.uncommitted_removes@[k]).0,
                            self.uncommitted_removes@[k].1@,
                        ),
                    ),
            decreases self.uncommitted_removes@.len() - i,
        {
            let key = &self.uncommitted_removes[i];
            if is_hit(info, key.0, &key.1) {
                proof {
                    let view = (key.0, key.1@);
                    assert(self.uncommitted_removes@[i as int].0 == view.0);
                    assert(self@.removed.contains(view));
                }
                return false;
            }
            i += 1;
        }
        proof {
            assert forall|key: Key| #[trigger] self@.removed.contains(key) implies !hit(
                info@,
                key,
            ) by {
                let k = choose|k: int|
                    0 <= k < self.uncommitted_removes@.len() && (
                    #[trigger] self.uncommitted_removes@[k]).0 == key.0
                        && self.uncommitted_removes@[k].1@ == key.1;
                assert((self.uncommitted_removes@[k].0, self.uncommitted_removes@[k].1@) == key);
            }
        }
        true
    }

    /// Whether a bookmark event counts as indexed, given all committed bookmarks with its id.
    pub fn is_counted(&self, results: &Vec<IndexedBookmark>, event_id: &EventId) -> (indexed: bool)
        requires
            self.wf(),
        ensures
            indexed == counted(self@, found_views(results@), event_id@),
    {
        let mut i: usize = 0;
        while i < self.uncommitted_adds.len()
            invariant
                i <= self.uncommitted_adds@.len(),
                forall|k: int| 0 <= k < i ==> (#[trigger] self@.pending[k]).event_id != event_id@,
            decreases self.uncommitted_adds@.len() - i,
        {
            assert(self@.pending[i as int] == self.uncommitted_adds@[i as int]@);
            if self.uncommitted_adds[i].event_id.same_as(event_id) {
                return true;
            }
            i += 1;
        }
        let mut j: usize = 0;
        while j < results.len()
            invariant
                self.wf(),
                j <= results@.len(),
                !is_pending(self@.pending, event_id@),
                forall|k: int|
                    0 <= k < j ==> !untouched(
                        self@.removed,
                        (#[trigger] found_views(results@)[k]).pointer,
                    ),
            decreases results@.len() - j,
        {
            let info = results[j].pointer_info();
            assert(found_views(results@)[j as int].pointer == info@);
            if self.is_untouched(&info) {
                return true;
            }
            j += 1;
        }
        false
    }

    /// Whether a bookmark event counts as indexed, given what a lookup of all committed bookmarks with
    /// its id brought. Where the lookup failed it does: who asks must not take it for missing. An
    /// operation that adds a bookmark does not ask here, and fails where the lookup does.
    pub fn is_listed(
        &self,
        lookup: &Result<Vec<IndexedBookmark>, IndexError>,
        event_id: &EventId,
    ) -> (indexed: bool)
        requires
            self.wf(),
        ensures
            indexed == listed_by(self@, *lookup, event_id@),
    {
        match lookup {
            Ok(results) => self.is_counted(results, event_id),
            Err(_) => true,
        }
    }

    /// Whether a bookmark event counts as indexed. Where it cannot be looked up it does: who asks must not
    /// take it for missing. An operation that adds a bookmark does not ask here, and fails where the
    /// lookup does.
    pub fn contains(&self, event_id: &EventId) -> (indexed: bool)
        requires
            self.wf(),
        ensures
            exists|lookup: Result<Vec<IndexedBookmark>, IndexError>| #[trigger]
                says(*self, event_id@, lookup, indexed) && call_ensures(
                    BookmarkIndex::find_all_by_event_id_field,
                    (self, bookmark_schema().event_id, event_id),
                    lookup,
                ),
    {
        let lookup = self.find_all_by_event_id_field(self.schema.primary_key(), event_id);
        let indexed = self.is_listed(&lookup, event_id);
        proof {
            if let Ok(ref results) = lookup {
                if self@.committed.private {
                    lemma_counted(self@, found_views(results@), event_id@);
                }
            }
            assert(says(*self, event_id@, lookup, indexed));
        }
        indexed
    }
}

impl BookmarkIndex {
    /// Adds a document to what the writer holds.
    fn insert_document(
        &self,
        writer: &mut BookmarkIndexWriter,
        pointer_info: &BookmarkPointerInfo,
        bookmark_content: &IndexedBookmarkContent,
    ) -> (inserted: Result<(), IndexError>)
        requires
            self.wf(),
            old(writer).writes_to(self),
            texts_fit(pointer_info@, bookmark_content@),
        ensures
            final(writer).writes_to(self),
            match inserted {
                Ok(_) => final(writer)@ == old(writer)@.insert(
                    bookmark_doc(pointer_info@, bookmark_content@),
                ),
                Err(error) => error is TantivyError && final(writer)@ == old(writer)@,
            },
    {
        let document = match self.schema.make_doc(pointer_info, bookmark_content) {
            Ok(document) => document,
            Err(error) => return Err(error),
        };
        proof {
            let doc = bookmark_doc(pointer_info@, bookmark_content@);
            assert(doc_values(document) == doc);
            assert(is_bookmark(doc));
            assert forall|other: Doc| #[trigger] writer@.insert(doc).contains(other) implies
                writer@.contains(other) || other == doc by {}
        }
        match add_document(&mut writer.inner, document) {
            Ok(_) => Ok(()),
            Err(error) => Err(IndexError::TantivyError(error)),
        }
    }

    /// Removes the documents with the given id from what the writer holds.
    fn delete_documents(&self, writer: &mut BookmarkIndexWriter, field: u32, event_id: &EventId)
        requires
            self.wf(),
            old(writer).writes_to(self),
            holds_keywords(bookmark_fields(), field),
        ensures
            final(writer).writes_to(self),
            final(writer)@ == without_term(old(writer)@, field, event_id@),
    {
        let ghost held = writer@;
        delete_term(&mut writer.inner, field, event_id.as_str());
        assert forall|doc: Doc| #[trigger] writer@.contains(doc) implies held.contains(doc) by {}
    }

    /// Stages the addition of a bookmark, given whether it counts as indexed.
    pub fn stage_add(
        &mut self,
        writer: &mut BookmarkIndexWriter,
        pointer_info: &BookmarkPointerInfo,
        bookmark_content: &IndexedBookmarkContent,
        indexed: bool,
    ) -> (staged: Result<(), IndexError>)
        requires
            old(self).wf(),
            old(writer).writes_to(old(self)),
        ensures
            final(self).wf(),
            final(writer).writes_to(final(self)),
            same_commit(*old(self), *final(self)),
            final(self).tries() == old(self).tries(),
            indexed ==> staged is Ok,
            match staged {
                Ok(_) => {
                    &&& staging_of(*final(self), *final(writer)) == after_add(
                        staging_of(*old(self), *old(writer)),
                        pointer_info@,
                        bookmark_content@,
                        indexed,
                    )
                    &&& !indexed ==> texts_fit(pointer_info@, bookmark_content@)
                },
                Err(error) => {
                    &&& staging_of(*final(self), *final(writer)) == staging_of(
                        *old(self),
                        *old(writer),
                    )
                    &&& if texts_fit(pointer_info@, bookmark_content@) {
                        error is TantivyError
                    } else {
                        error == IndexError::IndexWriteError(IndexWriteError::TextTooLong)
                    }
                },
            },
    {
        if indexed {
            return Ok(());
        }
        if !fits(pointer_info, bookmark_content) {
            return Err(IndexError::IndexWriteError(IndexWriteError::TextTooLong));
        }
        match self.insert_document(writer, pointer_info, bookmark_content) {
            Ok(_) => {},
            Err(error) => return Err(error),
        }
        let ghost pending = self@.pending;
        self.uncommitted_adds.push(pointer_info.clone());
        assert(self@.pending =~= pending.push(pointer_info@));
        Ok(())
    }

    /// Keeps, of the bookmarks added since the last commit, those without the given id, and notes the
    /// id where committed bookmarks have it.
    fn note_removal(&mut self, field: u32, event_id: &EventId, found: bool)
        requires
            old(self).wf(),
            field < 3,
        ensures
            final(self).wf(),
            same_commit(*old(self), *final(self)),
            final(self).tries() == old(self).tries(),
            final(self)@.pending == without_hits(old(self)@.pending, (field, event_id@)),
            final(self)@.removed == if found {
                old(self)@.removed.insert((field, event_id@))
            } else {
                old(self)@.removed
            },
    {
        let ghost key = (field, event_id@);
        let ghost keep = |pointer: Pointer| !hit(pointer, key);
        let ghost pending = self@.pending;
        let mut kept: Vec<BookmarkPointerInfo> = Vec::new();
        assert(pointer_views(kept@) =~= Seq::empty());
        assert(pending.take(0).filter(keep) =~= Seq::empty()) by {
            reveal(Seq::filter);
        }
        let mut i: usize = 0;
        while i < self.uncommitted_adds.len()
            invariant
                field < 3,
                key == (field, event_id@),
                keep == |pointer: Pointer| !hit(pointer, key),
                pending == pointer_views(self.uncommitted_adds@),
                i <= self.uncommitted_adds@.len(),
                pointer_views(kept@) == pending.take(i as int).filter(keep),
            decreases self.uncommitted_adds@.len() - i,
        {
            let info = &self.uncommitted_adds[i];
            proof {
                reveal(Seq::filter);
                let more = pending.take(i + 1);
                assert(more.drop_last() =~= pending.take(i as int));
                assert(more.last() == info@);
            }
            if !is_hit(info, field, event_id) {
                let ghost before = pointer_views(kept@);
                kept.push(info.clone());
                assert(pointer_views(kept@) =~= before.push(info@));
            }
            i += 1;
        }
        assert(pending.take(i as int) =~= pending);
        self.uncommitted_adds = kept;
        if found {
            let ghost keys = self.uncommitted_removes@;
            self.uncommitted_removes.push((field, event_id.clone()));
            proof {
                lemma_key_views_push(keys, (field, *event_id));
            }
        }
    }

    /// Stages the removal of all documents with the given id, given whether committed documents have
    /// it.
    pub fn stage_removal(
        &mut self,
        writer: &mut BookmarkIndexWriter,
        field: u32,
        event_id: &EventId,
        found: bool,
    )
        requires
            old(self).wf(),
            old(writer).writes_to(old(self)),
            field < 3,
        ensures
            final(self).wf(),
            final(writer).writes_to(final(self)),
            same_commit(*old(self), *final(self)),
            final(self).tries() == old(self).tries(),
            staging_of(*final(self), *final(writer)) == after_removal(
                staging_of(*old(self), *old(writer)),
                (field, event_id@),
                found,
            ),
    {
        self.delete_documents(writer, field, event_id);
        self.note_removal(field, event_id, found);
    }

    /// The bookmarks that an edit of all bookmarks with an id renews, given those that are committed.
    fn bookmarks_to_renew(
        &self,
        field: u32,
        event_id: &EventId,
        events: &Vec<IndexedBookmark>,
    ) -> (renewed: Vec<BookmarkPointerInfo>)
        requires
            self.wf(),
            field < 3,
        ensures
            pointer_views(renewed@) == renewals(
                self@.pending,
                self@.removed,
                (field, event_id@),
                found_views(events@),
            ),
    {
        let ghost key = (field, event_id@);
        let ghost found = pointers(found_views(events@));
        let ghost removed = self@.removed;
        let ghost live = |pointer: Pointer| untouched(removed, pointer) && hit(pointer, key);
        let mut renewed: Vec<BookmarkPointerInfo> = Vec::new();
        assert(pointer_views(renewed@) =~= Seq::empty());
        assert(found.take(0).filter(live) =~= Seq::empty()) by {
            reveal(Seq::filter);
        }
        let mut i: usize = 0;
        while i < events.len()
            invariant
                self.wf(),
                field < 3,
                key == (field, event_id@),
                removed == self@.removed,
                found == pointers(found_views(events@)),
                live == |pointer: Pointer| untouched(removed, pointer) && hit(pointer, key),
                i <= events@.len(),
                pointer_views(renewed@) == found.take(i as int).filter(live),
            decreases events@.len() - i,
        {
            let info = events[i].pointer_info();
            proof {
                reveal(Seq::filter);
                let more = found.take(i + 1);
                assert(more.drop_last() =~= found.take(i as int));
                assert(more.last() == info@);
            }
            if self.is_untouched(&info) && is_hit(&info, field, event_id) {
                let ghost before = pointer_views(renewed@);
                renewed.push(info);
                assert(pointer_views(renewed@) =~= before.push(info@));
            }
            i += 1;
        }
        assert(found.take(i as int) =~= found);
        let ghost pending = self@.pending;
        let ghost first = found.filter(live);
        let ghost hits = |pointer: Pointer| hit(pointer, key);
        assert(pending.take(0).filter(hits) =~= Seq::empty()) by {
            reveal(Seq::filter);
        }
        assert(pointer_views(renewed@) =~= first + pending.take(0).filter(hits));
        let mut j: usize = 0;
        while j < self.uncommitted_adds.len()
            invariant
                self.wf(),
                field < 3,
                key == (field, event_id@),
                pending == pointer_views(self.uncommitted_adds@),
                hits == |pointer: Pointer| hit(pointer, key),
                j <= self.uncommitted_adds@.len(),
                pointer_views(renewed@) == first + pending.take(j as int).filter(hits),
            decreases self.uncommitted_adds@.len() - j,
        {
            let info = &self.uncommitted_adds[j];
            proof {
                reveal(Seq::filter);
                let more = pending.take(j + 1);
                assert(more.drop_last() =~= pending.take(j as int));
                assert(more.last() == info@);
            }
            if is_hit(info, field, event_id) {
                let ghost before = pointer_views(renewed@);
                renewed.push(info.clone());
                assert(pointer_views(renewed@) =~= before.push(info@));
            }
            j += 1;
        }
        assert(pending.take(j as int) =~= pending);
        renewed
    }

    /// Whether a bookmark with the given id was added since the last commit, and not removed since.
    pub fn has_staged(&self, field: u32, event_id: &EventId) -> (staged: bool)
        requires
            self.wf(),
            field < 3,
        ensures
            staged == is_staged(self@.pending, (field, event_id@)),
    {
        let mut i: usize = 0;
        while i < self.uncommitted_adds.len()
            invariant
                field < 3,
                i <= self.uncommitted_adds@.len(),
                forall|k: int| 0 <= k < i ==> !hit(#[trigger] self@.pending[k], (field, event_id@)),
            decreases self.uncommitted_adds@.len() - i,
        {
            assert(self@.pending[i as int] == self.uncommitted_adds@[i as int]@);
            if is_hit(&self.uncommitted_adds[i], field, event_id) {
                return true;
            }
            i += 1;
        }
        false
    }

    /// Stages the renewal of all bookmarks with an id, given those that are committed. Nothing is staged
    /// where one of them does not fit a document with the new content. Where the engine fails, the
    /// documents are gone from what the writer holds, and the bookmarks are still to be renewed.
    pub fn stage_renewal(
        &mut self,
        writer: &mut BookmarkIndexWriter,
        field: u32,
        event_id: &EventId,
        events: &Vec<IndexedBookmark>,
        bookmark_content: &IndexedBookmarkContent,
    ) -> (staged: Result<(), IndexError>)
        requires
            old(self).wf(),
            old(writer).writes_to(old(self)),
            field < 3,
        ensures
            final(self).wf(),
            final(writer).writes_to(final(self)),
            same_commit(*old(self), *final(self)),
            final(self).tries() == old(self).tries(),
            match staged {
                Ok(_) => staging_of(*final(self), *final(writer)) == after_renewal(
                    staging_of(*old(self), *old(writer)),
                    (field, event_id@),
                    found_views(events@),
                    bookmark_content@,
                ),
                Err(error) => {
                    ||| {
                        &&& error == IndexError::IndexWriteError(IndexWriteError::TextTooLong)
                        &&& !all_fit(
                            renewals(
                                old(self)@.pending,
                                old(self)@.removed,
                                (field, event_id@),
                                found_views(events@),
                            ),
                            bookmark_content@,
                        )
                        &&& staging_of(*final(self), *final(writer)) == staging_of(
                            *old(self),
                            *old(writer),
                        )
                    }
                    ||| {
                        &&& error is TantivyError
                        &&& staging_of(*final(self), *final(writer)) == emptied(
                            staging_of(*old(self), *old(writer)),
                            (field, event_id@),
                        )
                    }
                },
            },
    {
        let ghost before = staging_of(*self, *writer);
        let ghost key = (field, event_id@);
        let ghost content = bookmark_content@;
        let mut renewed = self.bookmarks_to_renew(field, event_id, events);
        let ghost views = pointer_views(renewed@);
        let mut i: usize = 0;
        while i < renewed.len()
            invariant
                self.wf(),
                writer.writes_to(self),
                *self == *old(self),
                *writer == *old(writer),
                i <= renewed@.len(),
                views == pointer_views(renewed@),
                views == renewals(
                    self@.pending,
                    self@.removed,
                    (field, event_id@),
                    found_views(events@),
                ),
                content == bookmark_content@,
                forall|k: int| 0 <= k < i ==> texts_fit(#[trigger] views[k], content),
            decreases renewed@.len() - i,
        {
            assert(views[i as int] == renewed@[i as int]@);
            if !fits(&renewed[i], bookmark_content) {
                return Err(IndexError::IndexWriteError(IndexWriteError::TextTooLong));
            }
            i += 1;
        }
        assert(holds_keywords(bookmark_fields(), field));
        self.delete_documents(writer, field, event_id);
        let ghost rest = without_term(before.docs, field, event_id@);
        assert(docs_of(views.take(0), content) =~= Seq::empty());
        assert(Seq::<Doc>::empty().to_multiset() =~= Multiset::empty()) by {
            broadcast use group_to_multiset_ensures;

        }
        assert(writer@ =~= rest.add(docs_of(views.take(0), content).to_multiset()));
        let mut j: usize = 0;
        while j < renewed.len()
            invariant
                self.wf(),
                writer.writes_to(self),
                *self == *old(self),
                before == staging_of(*old(self), *old(writer)),
                key == (field, event_id@),
                field < 3,
                holds_keywords(bookmark_fields(), field),
                j <= renewed@.len(),
                views == pointer_views(renewed@),
                views == renewals(before.pending, before.removed, key, found_views(events@)),
                content == bookmark_content@,
                forall|k: int| 0 <= k < views.len() ==> texts_fit(#[trigger] views[k], content),
                rest == without_term(before.docs, field, event_id@),
                writer@ == rest.add(docs_of(views.take(j as int), content).to_multiset()),
            decreases renewed@.len() - j,
        {
            assert(views[j as int] == renewed@[j as int]@);
            match self.insert_document(writer, &renewed[j], bookmark_content) {
                Ok(_) => {
                    proof {
                        lemma_docs_of_take(views, content, j as int);
                        assert(writer@ =~= rest.add(
                            docs_of(views.take(j + 1), content).to_multiset(),
                        ));
                    }
                },
                Err(error) => {
                    self.delete_documents(writer, field, event_id);
                    proof {
                        lemma_renewed_deleted(
                            before,
                            key,
                            found_views(events@),
                            content,
                            j as int,
                        );
                    }
                    return Err(error);
                },
            }
            j += 1;
        }
        assert(views.take(j as int) =~= views);
        self.note_removal(field, event_id, events.len() > 0);
        let ghost kept = self@.pending;
        let ghost old_adds = self.uncommitted_adds@;
        self.uncommitted_adds.append(&mut renewed);
        assert(self@.pending =~= kept + views);
        Ok(())
    }
}

/// The documents of one more bookmark.
proof fn lemma_docs_of_take(bookmarks: Seq<Pointer>, content: Content, i: int)
    requires
        0 <= i < bookmarks.len(),
    ensures
        docs_of(bookmarks.take(i + 1), content).to_multiset() == docs_of(
            bookmarks.take(i),
            content,
        ).to_multiset().insert(bookmark_doc(bookmarks[i], content)),
{
    broadcast use group_to_multiset_ensures;

    assert(docs_of(bookmarks.take(i + 1), content) =~= docs_of(bookmarks.take(i), content).push(
        bookmark_doc(bookmarks[i], content),
    ));
}

/// Documents that were renewed by an id have that id, and are deleted by it.
proof fn lemma_renewed_deleted(
    before: Staging,
    key: Key,
    results: Seq<Found>,
    content: Content,
    count: int,
)
    requires
        key.0 < 3,
        0 <= count <= renewals(before.pending, before.removed, key, results).len(),
    ensures
        without_term(
            without_term(before.docs, key.0, key.1).add(
                docs_of(renewals(before.pending, before.removed, key, results).take(count), content).to_multiset(),
            ),
            key.0,
            key.1,
        ) == without_term(before.docs, key.0, key.1),
{
    broadcast use group_to_multiset_ensures;

    let renewed = renewals(before.pending, before.removed, key, results);
    let added = docs_of(renewed.take(count), content);
    let rest = without_term(before.docs, key.0, key.1);
    assert forall|doc: Doc| added.to_multiset().contains(doc) implies has_term(doc, key.0, key.1) by {
        assert(added.contains(doc));
        let i = choose|i: int| 0 <= i < added.len() && added[i] == doc;
        lemma_renewals_hit(before.pending, before.removed, key, results, i);
        lemma_bookmark_doc(renewed[i], content);
        assert(doc == bookmark_doc(renewed[i], content));
    }
    assert(without_term(rest.add(added.to_multiset()), key.0, key.1) =~= rest);
}

} // verus!
