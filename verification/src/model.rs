//! What a bookmark index holds, and what operations do to it.

use tantivy::Searcher;
use vstd::multiset::Multiset;
use vstd::prelude::*;
use vstd::utf8::encode_utf8;

use crate::bookmark::{valid_pointer, Content, Found, Pointer};
use crate::engine::{
    doc_matches, engine_ranks, first_value, has_scores, has_term, page, ranks, searcher_docs,
    searcher_fields, without_term, Clause, Doc, FieldValue, MAX_TERM_BYTES,
};
use crate::schema::{bookmark_fields, bookmark_schema, document_of, texts_fit};

verus! {

// ---------------------------------------------------------------------------------------------
// Documents of bookmarks
// ---------------------------------------------------------------------------------------------

/// The document of a bookmark in a bookmark index.
pub open spec fn bookmark_doc(pointer: Pointer, content: Content) -> Doc {
    document_of(bookmark_schema(), pointer, content)
}

/// Whether a document is that of a bookmark with valid ids.
pub open spec fn is_bookmark(doc: Doc) -> bool {
    exists|pointer: Pointer, content: Content|
        {
            &&& doc == #[trigger] bookmark_doc(pointer, content)
            &&& valid_pointer(pointer)
        }
}

/// Whether all documents are those of bookmarks with valid ids.
pub open spec fn all_bookmarks(docs: Multiset<Doc>) -> bool {
    forall|doc: Doc| #[trigger] docs.contains(doc) ==> is_bookmark(doc)
}

/// The text that is the first value of a field.
pub open spec fn field_text(doc: Doc, field: u32) -> Option<Seq<char>> {
    match first_value(doc, field) {
        Some(FieldValue::Text(text)) => Some(text),
        _ => None,
    }
}

/// The ids in a document, if they are all there and valid.
pub open spec fn doc_pointer(doc: Doc) -> Option<Pointer> {
    match (
        field_text(doc, bookmark_schema().event_id),
        field_text(doc, bookmark_schema().original_event_id),
        field_text(doc, bookmark_schema().target_event_id),
        field_text(doc, bookmark_schema().target_room_id),
    ) {
        (Some(event_id), Some(original_event_id), Some(target_event_id), Some(target_room_id)) => {
            let pointer = Pointer { event_id, original_event_id, target_event_id, target_room_id };
            if valid_pointer(pointer) {
                Some(pointer)
            } else {
                None
            }
        },
        _ => None,
    }
}

// ---------------------------------------------------------------------------------------------
// Searches
// ---------------------------------------------------------------------------------------------

/// A field of ids, and an id.
pub type Key = (u32, Seq<char>);

/// What is committed to a bookmark index.
#[verifier::ext_equal]
pub struct Committed {
    /// Whether the index lives in memory, behind one handle, and all its commits succeeded. What any
    /// other index holds may change by other hands, or is not known because a commit failed.
    pub private: bool,
    /// The documents after the last commit.
    pub docs: Multiset<Doc>,
}

/// What a bookmark index holds.
#[verifier::ext_equal]
pub struct IndexModel {
    pub committed: Committed,
    /// The bookmarks that were added since the last commit, and not removed since.
    pub pending: Seq<Pointer>,
    /// The keys by which committed bookmarks were removed since the last commit.
    pub removed: Set<Key>,
}

/// Whether a snapshot shows what is committed.
pub open spec fn snapshot_of(committed: Committed, searcher: Searcher) -> bool {
    &&& searcher_fields(searcher) == bookmark_fields()
    &&& committed.private ==> searcher_docs(searcher).to_multiset() == committed.docs
}

/// Whether the results are the bookmarks on a page of a ranking of a snapshot, with their scores.
pub open spec fn reads_page(
    searcher: Searcher,
    ranking: Seq<(u32, int)>,
    offset: int,
    limit: int,
    results: Seq<Found>,
) -> bool {
    let hits = page(ranking, offset, limit);
    &&& results.len() == hits.len()
    &&& forall|i: int|
        0 <= i < results.len() ==> doc_pointer(searcher_docs(searcher)[hits[i].1]) == Some(
            (#[trigger] results[i]).pointer,
        ) && results[i].score == hits[i].0
}

/// Whether the results answer a query: they are a page of the engine's ranking, by descending score, of
/// the committed bookmarks that meet the conditions, with its scores.
pub open spec fn answers(
    committed: Committed,
    clauses: Seq<Clause>,
    offset: int,
    limit: int,
    results: Seq<Found>,
) -> bool {
    exists|searcher: Searcher, ranking: Seq<(u32, int)>|
        {
            &&& snapshot_of(committed, searcher)
            &&& #[trigger] ranks(searcher, clauses, ranking)
            &&& engine_ranks(searcher, clauses, ranking)
            &&& reads_page(searcher, ranking, offset, limit, results)
        }
}

/// The documents that have a term.
pub open spec fn matching(docs: Multiset<Doc>, field: u32, text: Seq<char>) -> Multiset<Doc> {
    docs.filter(|doc: Doc| has_term(doc, field, text))
}

/// Whether a document meets a condition that depends on the document alone.
pub open spec fn doc_meets(clause: Clause, doc: Doc) -> bool {
    match clause {
        Clause::All => true,
        Clause::Term(field, text) => has_term(doc, field, text),
        Clause::Text(parser, text) => doc_matches(parser, text, doc),
    }
}

/// Whether a document meets all conditions.
pub open spec fn doc_meets_all(clauses: Seq<Clause>, doc: Doc) -> bool {
    forall|i: int| 0 <= i < clauses.len() ==> doc_meets(#[trigger] clauses[i], doc)
}

/// Whether conditions depend on documents alone, and all documents that meet them are found: texts have
/// no asterisks, and if they have boosts then small ones.
pub open spec fn about_documents(clauses: Seq<Clause>) -> bool {
    forall|i: int|
        0 <= i < clauses.len() ==> match #[trigger] clauses[i] {
            Clause::Text(_, text) => !text.contains('*') && has_scores(text),
            _ => true,
        }
}

/// The documents that meet all conditions.
pub open spec fn matched(docs: Multiset<Doc>, clauses: Seq<Clause>) -> Multiset<Doc> {
    docs.filter(|doc: Doc| doc_meets_all(clauses, doc))
}

/// Whether a document holds the given ids.
pub open spec fn some_doc_of(docs: Multiset<Doc>, pointer: Pointer) -> bool {
    exists|doc: Doc| #[trigger] docs.contains(doc) && doc_pointer(doc) == Some(pointer)
}

/// Whether the results are the bookmarks of the given documents, one for each.
pub open spec fn lists(docs: Multiset<Doc>, results: Seq<Found>) -> bool {
    exists|listed: Seq<Doc>| #[trigger] listed.to_multiset() == docs && pointers_of(listed, results)
}

/// Whether the results are the bookmarks of the given documents, in their order.
pub open spec fn pointers_of(docs: Seq<Doc>, results: Seq<Found>) -> bool {
    &&& results.len() == docs.len()
    &&& forall|i: int|
        0 <= i < docs.len() ==> doc_pointer(#[trigger] docs[i]) == Some(results[i].pointer)
}

/// Whether the results are what a lookup of a term finds: as many bookmarks as have the term, up to
/// the limit, and all of them where there are no more than the limit.
pub open spec fn finds(
    docs: Multiset<Doc>,
    field: u32,
    text: Seq<char>,
    limit: int,
    results: Seq<Found>,
) -> bool {
    let found = matching(docs, field, text);
    &&& results.len() == if found.len() < limit {
        found.len() as int
    } else {
        limit
    }
    &&& forall|i: int|
        0 <= i < results.len() ==> some_doc_of(found, (#[trigger] results[i]).pointer)
    &&& found.len() <= limit ==> forall|doc: Doc| #[trigger]
        found.contains(doc) ==> exists|i: int|
            0 <= i < results.len() && doc_pointer(doc) == Some((#[trigger] results[i]).pointer)
    &&& found.len() <= limit ==> lists(found, results)
}

// ---------------------------------------------------------------------------------------------
// Operations
// ---------------------------------------------------------------------------------------------

/// An operation on a bookmark index.
pub enum Operation {
    Add(Pointer, Content),
    Remove(Seq<char>),
    RemoveWithTargetEventId(Seq<char>),
    Edit(Pointer, Content),
    EditWithTargetEventId(Seq<char>, Content),
    Noop,
}

/// What is about to be committed: the documents that the writer holds, the bookmarks that were added
/// since the last commit, and the keys by which committed ones were removed.
#[verifier::ext_equal]
pub struct Staging {
    pub docs: Multiset<Doc>,
    pub pending: Seq<Pointer>,
    pub removed: Set<Key>,
}

/// Whether a new writer may start here: nothing was added or removed, and where the index is private
/// it holds the committed documents.
pub open spec fn may_start(model: IndexModel, staging: Staging) -> bool {
    &&& staging.pending == Seq::<Pointer>::empty()
    &&& staging.removed == Set::<Key>::empty()
    &&& model.committed.private ==> staging.docs == model.committed.docs
}

/// The id in the given key field of a bookmark.
pub open spec fn key_text(pointer: Pointer, field: u32) -> Seq<char> {
    if field == bookmark_schema().event_id {
        pointer.event_id
    } else if field == bookmark_schema().original_event_id {
        pointer.original_event_id
    } else if field == bookmark_schema().target_event_id {
        pointer.target_event_id
    } else {
        pointer.target_room_id
    }
}

/// Whether a text is short enough to be looked up.
pub open spec fn short(text: Seq<char>) -> bool {
    encode_utf8(text).len() <= MAX_TERM_BYTES
}

/// Whether a bookmark is one of those that a removal by the key removes.
pub open spec fn hit(pointer: Pointer, key: Key) -> bool {
    key_text(pointer, key.0) == key.1 && short(key.1)
}

/// Whether no removal removed a bookmark.
pub open spec fn untouched(removed: Set<Key>, pointer: Pointer) -> bool {
    forall|key: Key| #[trigger] removed.contains(key) ==> !hit(pointer, key)
}

/// Whether a bookmark event was added since the last commit, and not removed since.
pub open spec fn is_pending(pending: Seq<Pointer>, event_id: Seq<char>) -> bool {
    exists|i: int| 0 <= i < pending.len() && (#[trigger] pending[i]).event_id == event_id
}

/// Whether a document of a multiset is that of a bookmark that was not removed.
pub open spec fn some_untouched(docs: Multiset<Doc>, removed: Set<Key>) -> bool {
    exists|doc: Doc| #[trigger]
        docs.contains(doc) && doc_pointer(doc) is Some && untouched(
            removed,
            doc_pointer(doc)->Some_0,
        )
}

/// Whether a bookmark event counts as indexed: it was added since the last commit, or it is committed
/// and was not removed since.
pub open spec fn listed(committed: Committed, staging: Staging, event_id: Seq<char>) -> bool {
    ||| is_pending(staging.pending, event_id)
    ||| some_untouched(
        matching(committed.docs, bookmark_schema().event_id, event_id),
        staging.removed,
    )
}

/// Whether an index may count a bookmark event as indexed, or not. What is committed to an index that
/// is not private is not known.
pub open spec fn may_list(
    committed: Committed,
    staging: Staging,
    event_id: Seq<char>,
    indexed: bool,
) -> bool {
    &&& is_pending(staging.pending, event_id) ==> indexed
    &&& committed.private ==> indexed == listed(committed, staging, event_id)
}

/// What the addition of a document leaves.
pub open spec fn after_insert(staging: Staging, pointer: Pointer, content: Content) -> Staging {
    Staging {
        docs: staging.docs.insert(bookmark_doc(pointer, content)),
        pending: staging.pending.push(pointer),
        removed: staging.removed,
    }
}

/// What an addition leaves: the document is added unless the event counts as indexed.
pub open spec fn after_add(
    staging: Staging,
    pointer: Pointer,
    content: Content,
    indexed: bool,
) -> Staging {
    if indexed {
        staging
    } else {
        after_insert(staging, pointer, content)
    }
}

/// The bookmarks that a removal by the key leaves.
pub open spec fn without_hits(pending: Seq<Pointer>, key: Key) -> Seq<Pointer> {
    pending.filter(|pointer: Pointer| !hit(pointer, key))
}

/// What a removal leaves: no document with the id, also among those added since the last commit. The
/// key is noted where committed documents have it.
pub open spec fn after_removal(staging: Staging, key: Key, found: bool) -> Staging {
    Staging {
        docs: without_term(staging.docs, key.0, key.1),
        pending: without_hits(staging.pending, key),
        removed: if found {
            staging.removed.insert(key)
        } else {
            staging.removed
        },
    }
}

/// Whether an addition leads from one staging to the next.
pub open spec fn add_step(
    committed: Committed,
    before: Staging,
    pointer: Pointer,
    content: Content,
    after: Staging,
) -> bool {
    exists|indexed: bool|
        {
            &&& #[trigger] may_list(committed, before, pointer.event_id, indexed)
            &&& after == after_add(before, pointer, content, indexed)
            &&& !indexed ==> texts_fit(pointer, content)
        }
}

/// Whether committed documents have the id of a key.
pub open spec fn has_key(committed: Committed, key: Key) -> bool {
    matching(committed.docs, key.0, key.1).len() > 0
}

/// Whether a lookup of a key among the committed documents may find some, or none.
pub open spec fn may_find(committed: Committed, key: Key, found: bool) -> bool {
    committed.private ==> found == has_key(committed, key)
}

/// Whether a removal leads from one staging to the next.
pub open spec fn removal_step(committed: Committed, before: Staging, key: Key, after: Staging) -> bool {
    exists|found: bool| #[trigger]
        may_find(committed, key, found) && after == after_removal(before, key, found)
}

/// The key of all versions of a bookmark.
pub open spec fn original_key(original: Seq<char>) -> Key {
    (bookmark_schema().original_event_id, original)
}

/// The key of all bookmarks of an event.
pub open spec fn target_key(target: Seq<char>) -> Key {
    (bookmark_schema().target_event_id, target)
}

/// Whether an edit leads from one staging through another to the next: the documents of the bookmark
/// are removed, and its new version is added.
pub open spec fn edit_step(
    committed: Committed,
    before: Staging,
    pointer: Pointer,
    content: Content,
    middle: Staging,
    after: Staging,
) -> bool {
    &&& removal_step(committed, before, original_key(pointer.original_event_id), middle)
    &&& add_step(committed, middle, pointer, content, after)
}

/// The bookmarks found.
pub open spec fn pointers(results: Seq<Found>) -> Seq<Pointer> {
    results.map_values(|found: Found| found.pointer)
}

/// The bookmarks that an edit by a key renews, given those that are committed: those that were not
/// removed since, and those that were added.
pub open spec fn renewals(
    pending: Seq<Pointer>,
    removed: Set<Key>,
    key: Key,
    results: Seq<Found>,
) -> Seq<Pointer> {
    pointers(results).filter(|pointer: Pointer| untouched(removed, pointer) && hit(pointer, key))
        + pending.filter(|pointer: Pointer| hit(pointer, key))
}

/// The documents of bookmarks with the same content.
pub open spec fn docs_of(bookmarks: Seq<Pointer>, content: Content) -> Seq<Doc> {
    bookmarks.map_values(|pointer: Pointer| bookmark_doc(pointer, content))
}

/// What an edit by a key leaves: the bookmarks that it renews have the new content.
pub open spec fn after_renewal(
    staging: Staging,
    key: Key,
    results: Seq<Found>,
    content: Content,
) -> Staging {
    let renewed = renewals(staging.pending, staging.removed, key, results);
    Staging {
        docs: without_term(staging.docs, key.0, key.1).add(
            docs_of(renewed, content).to_multiset(),
        ),
        pending: without_hits(staging.pending, key) + renewed,
        removed: if results.len() > 0 {
            staging.removed.insert(key)
        } else {
            staging.removed
        },
    }
}

/// Whether a bookmark with the key was added since the last commit, and not removed since.
pub open spec fn is_staged(pending: Seq<Pointer>, key: Key) -> bool {
    exists|i: int| 0 <= i < pending.len() && hit(#[trigger] pending[i], key)
}

/// Whether an edit of all bookmarks of an event leads from one staging to the next, given the
/// committed ones. Where there are none, and none was added since the last commit, it does nothing.
pub open spec fn renewal_step(
    committed: Committed,
    before: Staging,
    target: Seq<char>,
    content: Content,
    results: Seq<Found>,
    after: Staging,
) -> bool {
    let key = target_key(target);
    &&& committed.private ==> lists(matching(committed.docs, key.0, key.1), results)
    &&& after == if results.len() == 0 && !is_staged(before.pending, key) {
        before
    } else {
        after_renewal(before, key, results, content)
    }
}

/// What an edit of all bookmarks of an event leaves that fails midway: the documents are gone, and
/// the bookmarks are still to be renewed.
pub open spec fn emptied(staging: Staging, key: Key) -> Staging {
    Staging { docs: without_term(staging.docs, key.0, key.1), ..staging }
}

/// Whether an operation that fails midway may lead from one staging to the next.
pub open spec fn partial_step(
    committed: Committed,
    before: Staging,
    operation: Operation,
    after: Staging,
) -> bool {
    match operation {
        Operation::Edit(pointer, content) => {
            ||| after == before
            ||| removal_step(committed, before, original_key(pointer.original_event_id), after)
        },
        Operation::EditWithTargetEventId(target, content) => {
            ||| after == before
            ||| {
                &&& committed.private ==> has_key(committed, target_key(target)) || is_staged(
                    before.pending,
                    target_key(target),
                )
                &&& after == emptied(before, target_key(target))
            }
        },
        _ => after == before,
    }
}

/// Whether an operation leads from one staging to the next. The bookmarks of an event in an index
/// that is not private may be gone by the time that an edit of all of them is tried again.
pub open spec fn op_step(
    committed: Committed,
    before: Staging,
    operation: Operation,
    after: Staging,
) -> bool {
    match operation {
        Operation::Add(pointer, content) => add_step(committed, before, pointer, content, after),
        Operation::Remove(original) => removal_step(
            committed,
            before,
            original_key(original),
            after,
        ),
        Operation::RemoveWithTargetEventId(target) => removal_step(
            committed,
            before,
            target_key(target),
            after,
        ),
        Operation::Edit(pointer, content) => exists|middle: Staging| #[trigger]
            edit_step(committed, before, pointer, content, middle, after),
        Operation::EditWithTargetEventId(target, content) => {
            ||| exists|results: Seq<Found>| #[trigger]
                renewal_step(committed, before, target, content, results, after)
            ||| !committed.private && after == emptied(before, target_key(target))
        },
        Operation::Noop => after == before,
    }
}

/// Whether operations lead, one after the other, through a list of stagings.
pub open spec fn op_steps(committed: Committed, operations: Seq<Operation>, path: Seq<Staging>) -> bool {
    &&& path.len() == operations.len() + 1
    &&& forall|i: int|
        0 <= i < operations.len() ==> op_step(
            committed,
            path[i],
            #[trigger] operations[i],
            path[i + 1],
        )
}

} // verus!
