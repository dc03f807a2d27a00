//! What operations do to the contents of the index.

use vstd::multiset::Multiset;
use vstd::prelude::*;
use vstd::seq_lib::{group_to_multiset_ensures, lemma_multiset_commutative};

use crate::bookmark::{valid_pointer, Content, Found, Pointer};
use crate::engine::{has_term, without_term, Doc};
use crate::error::{failure_policy, FailurePolicy, IndexError};
use crate::execute::{
    bulk_outcome, execute_outcome, executed_all, executed_one, to_be_tried_again, tried,
};
use crate::lists::lemma_map_of_list;
use crate::lookup::lemma_bookmark_doc;
use crate::model::{
    add_step, after_add, after_insert, after_removal, after_renewal, all_bookmarks, bookmark_doc,
    doc_pointer, docs_of, edit_step, field_text, has_key, hit, is_bookmark, is_pending, is_staged,
    listed, lists, matching, may_find, may_list, may_start, op_step, op_steps, original_key,
    partial_step, pointers, pointers_of, removal_step, renewal_step, renewals, short,
    some_untouched, target_key, untouched, Committed, IndexModel, Key, Operation, Staging,
};
use crate::schema::bookmark_schema;
use crate::steps::{lemma_lists_len, lemma_partial_twice, lemma_retry};

verus! {

// ---------------------------------------------------------------------------------------------
// Vocabulary
// ---------------------------------------------------------------------------------------------

/// The id of the bookmark event of a document.
pub open spec fn doc_event_id(doc: Doc) -> Option<Seq<char>> {
    field_text(doc, bookmark_schema().event_id)
}

/// Whether no two documents are those of the same bookmark event.
pub open spec fn unique_ids(docs: Multiset<Doc>) -> bool {
    &&& forall|doc: Doc| #[trigger] docs.count(doc) <= 1
    &&& forall|one: Doc, other: Doc|
        #[trigger] docs.contains(one) && #[trigger] docs.contains(other) && doc_event_id(one)
            == doc_event_id(other) ==> one == other
}

/// The bookmarks whose first version is the given event.
pub open spec fn versions_of(docs: Multiset<Doc>, original: Seq<char>) -> Multiset<Doc> {
    matching(docs, bookmark_schema().original_event_id, original)
}

/// The bookmarks of the given event.
pub open spec fn bookmarks_of(docs: Multiset<Doc>, target: Seq<char>) -> Multiset<Doc> {
    matching(docs, bookmark_schema().target_event_id, target)
}

/// Whether a bookmark event is indexed.
pub open spec fn indexed(docs: Multiset<Doc>, event_id: Seq<char>) -> bool {
    matching(docs, bookmark_schema().event_id, event_id).len() > 0
}

/// Where one element of a multiset satisfies a predicate, the filtered multiset is not empty.
proof fn lemma_matching_contains(docs: Multiset<Doc>, field: u32, text: Seq<char>, doc: Doc)
    requires
        docs.contains(doc),
        has_term(doc, field, text),
    ensures
        matching(docs, field, text).contains(doc),
        matching(docs, field, text).len() > 0,
{
    let found = matching(docs, field, text);
    assert(found.contains(doc));
    assert(found =~= found.remove(doc).insert(doc));
}

/// A filtered multiset that is not empty has an element.
proof fn lemma_matching_some(docs: Multiset<Doc>, field: u32, text: Seq<char>) -> (doc: Doc)
    requires
        matching(docs, field, text).len() > 0,
    ensures
        docs.contains(doc),
        has_term(doc, field, text),
        matching(docs, field, text).contains(doc),
{
    let found = matching(docs, field, text);
    let doc = found.choose();
    assert(found.contains(doc));
    assert(docs.contains(doc));
    doc
}

// ---------------------------------------------------------------------------------------------
// What the writer holds, and what the index knows of it
// ---------------------------------------------------------------------------------------------

/// Whether a document is that of the given bookmark.
pub open spec fn doc_is(doc: Doc, pointer: Pointer) -> bool {
    exists|content: Content| doc == #[trigger] bookmark_doc(pointer, content)
}

/// Whether the documents are those of the given bookmarks, in their order.
pub open spec fn paired(docs: Seq<Doc>, bookmarks: Seq<Pointer>) -> bool {
    &&& docs.len() == bookmarks.len()
    &&& forall|i: int| 0 <= i < docs.len() ==> doc_is(#[trigger] docs[i], bookmarks[i])
}

/// Whether no removal removed a document.
pub open spec fn left(removed: Set<Key>, doc: Doc) -> bool {
    forall|key: Key| #[trigger] removed.contains(key) ==> !has_term(doc, key.0, key.1)
}

/// The documents that no removal removed.
pub open spec fn all_left(docs: Multiset<Doc>, removed: Set<Key>) -> Multiset<Doc> {
    docs.filter(|doc: Doc| left(removed, doc))
}

/// Whether the writer holds what the index takes it to hold: the committed documents that were not
/// removed, and the documents of the bookmarks that were added.
pub open spec fn consistent(committed: Committed, staging: Staging) -> bool {
    &&& all_bookmarks(committed.docs)
    &&& forall|key: Key| #[trigger] staging.removed.contains(key) ==> key.0 < 4
    &&& exists|staged: Seq<Doc>| #[trigger] holds(committed, staging, staged)
}

/// Whether the writer holds the committed documents that were not removed, and those staged.
pub open spec fn holds(committed: Committed, staging: Staging, staged: Seq<Doc>) -> bool {
    &&& paired(staged, staging.pending)
    &&& staging.docs == all_left(committed.docs, staging.removed).add(staged.to_multiset())
}

/// A new writer for a private index is consistent with it.
proof fn lemma_start(model: IndexModel, start: Staging)
    requires
        model.committed.private,
        all_bookmarks(model.committed.docs),
        may_start(model, start),
    ensures
        consistent(model.committed, start),
{
    broadcast use group_to_multiset_ensures;

    let staged = Seq::<Doc>::empty();
    assert(staged.to_multiset() =~= Multiset::empty());
    assert(all_left(model.committed.docs, start.removed) =~= model.committed.docs);
    assert(start.docs =~= all_left(model.committed.docs, start.removed).add(staged.to_multiset()));
    assert(holds(model.committed, start, staged));
}

/// The documents and the bookmarks that are kept, of documents and their bookmarks.
proof fn lemma_paired_filter(
    docs: Seq<Doc>,
    bookmarks: Seq<Pointer>,
    keep_doc: spec_fn(Doc) -> bool,
    keep: spec_fn(Pointer) -> bool,
)
    requires
        paired(docs, bookmarks),
        forall|i: int|
            0 <= i < docs.len() ==> keep_doc(#[trigger] docs[i]) == keep(bookmarks[i]),
    ensures
        paired(docs.filter(keep_doc), bookmarks.filter(keep)),
        docs.filter(keep_doc).to_multiset() == docs.to_multiset().filter(keep_doc),
    decreases docs.len(),
{
    broadcast use group_to_multiset_ensures;

    reveal(Seq::filter);
    if docs.len() == 0 {
        assert(docs.filter(keep_doc) =~= Seq::empty());
        assert(bookmarks.filter(keep) =~= Seq::empty());
        assert(docs =~= Seq::empty());
        assert(docs.to_multiset() =~= Multiset::empty());
        assert(docs.to_multiset().filter(keep_doc) =~= Multiset::empty());
    } else {
        let rest = docs.drop_last();
        let fewer = bookmarks.drop_last();
        assert forall|i: int| 0 <= i < rest.len() implies doc_is(#[trigger] rest[i], fewer[i])
            && keep_doc(rest[i]) == keep(fewer[i]) by {
            assert(rest[i] == docs[i]);
        }
        lemma_paired_filter(rest, fewer, keep_doc, keep);
        let last = docs.last();
        let n = docs.len() - 1;
        assert(docs[n] == last);
        assert(docs =~= rest.push(last));
        let kept = rest.filter(keep_doc);
        let kept_bookmarks = fewer.filter(keep);
        if keep_doc(last) {
            let all = kept.push(last);
            let all_bookmarks = kept_bookmarks.push(bookmarks.last());
            assert forall|i: int| 0 <= i < all.len() implies doc_is(
                #[trigger] all[i],
                all_bookmarks[i],
            ) by {
                if i < kept.len() {
                    assert(all[i] == kept[i]);
                }
            }
            assert(docs.to_multiset().filter(keep_doc) =~= rest.to_multiset().filter(
                keep_doc,
            ).insert(last));
        } else {
            assert(docs.to_multiset().filter(keep_doc) =~= rest.to_multiset().filter(keep_doc));
        }
    }
}

/// The document of a bookmark has the keys of the bookmark.
proof fn lemma_doc_is(doc: Doc, pointer: Pointer)
    requires
        doc_is(doc, pointer),
    ensures
        forall|key: Key| key.0 < 4 ==> #[trigger] has_term(doc, key.0, key.1) == hit(pointer, key),
        doc_event_id(doc) == Some(pointer.event_id),
        valid_pointer(pointer) ==> doc_pointer(doc) == Some(pointer),
{
    let content = choose|content: Content| doc == #[trigger] bookmark_doc(pointer, content);
    lemma_bookmark_doc(pointer, content);
}

/// A committed document is that of a valid bookmark.
proof fn lemma_committed_doc(committed: Committed, doc: Doc) -> (pointer: Pointer)
    requires
        all_bookmarks(committed.docs),
        committed.docs.contains(doc),
    ensures
        doc_is(doc, pointer),
        valid_pointer(pointer),
        doc_pointer(doc) == Some(pointer),
{
    assert(is_bookmark(doc));
    let (pointer, content) = choose|pointer: Pointer, content: Content|
        {
            &&& doc == #[trigger] bookmark_doc(pointer, content)
            &&& valid_pointer(pointer)
        };
    lemma_doc_is(doc, pointer);
    pointer
}

/// A document was not removed if and only if its bookmark was not.
proof fn lemma_left(removed: Set<Key>, doc: Doc, pointer: Pointer)
    requires
        forall|key: Key| #[trigger] removed.contains(key) ==> key.0 < 4,
        doc_is(doc, pointer),
    ensures
        left(removed, doc) == untouched(removed, pointer),
{
    lemma_doc_is(doc, pointer);
    assert forall|key: Key| #[trigger] removed.contains(key) implies has_term(doc, key.0, key.1)
        == hit(pointer, key) by {}
    if !left(removed, doc) {
        let key = choose|key: Key| #[trigger] removed.contains(key) && has_term(doc, key.0, key.1);
        assert(hit(pointer, key));
    }
    if !untouched(removed, pointer) {
        let key = choose|key: Key| #[trigger] removed.contains(key) && hit(pointer, key);
        assert(has_term(doc, key.0, key.1));
    }
}

/// Every document that a writer holds is that of a bookmark.
proof fn lemma_held_doc(committed: Committed, staging: Staging, doc: Doc) -> (pointer: Pointer)
    requires
        consistent(committed, staging),
        staging.docs.contains(doc),
    ensures
        doc_is(doc, pointer),
{
    broadcast use group_to_multiset_ensures;

    let staged = choose|staged: Seq<Doc>| #[trigger] holds(committed, staging, staged);
    if staged.to_multiset().contains(doc) {
        assert(staged.contains(doc));
        let i = choose|i: int| 0 <= i < staged.len() && staged[i] == doc;
        staging.pending[i]
    } else {
        assert(all_left(committed.docs, staging.removed).contains(doc));
        assert(committed.docs.contains(doc));
        lemma_committed_doc(committed, doc)
    }
}

/// A bookmark event counts as indexed if and only if the writer holds a document of it.
pub proof fn law_counted_means_held(committed: Committed, staging: Staging, event_id: Seq<char>)
    requires
        consistent(committed, staging),
        short(event_id),
    ensures
        listed(committed, staging, event_id) == indexed(staging.docs, event_id),
{
    broadcast use group_to_multiset_ensures;

    let field = bookmark_schema().event_id;
    let key = (field, event_id);
    let staged = choose|staged: Seq<Doc>| #[trigger] holds(committed, staging, staged);
    let kept = all_left(committed.docs, staging.removed);
    if is_pending(staging.pending, event_id) {
        let i = choose|i: int|
            0 <= i < staging.pending.len() && (#[trigger] staging.pending[i]).event_id == event_id;
        lemma_doc_is(staged[i], staging.pending[i]);
        assert(hit(staging.pending[i], key));
        assert(has_term(staged[i], key.0, key.1));
        assert(staged.contains(staged[i]));
        assert(staging.docs.contains(staged[i]));
        lemma_matching_contains(staging.docs, field, event_id, staged[i]);
    }
    if some_untouched(matching(committed.docs, field, event_id), staging.removed) {
        let doc = choose|doc: Doc| #[trigger]
            matching(committed.docs, field, event_id).contains(doc) && doc_pointer(doc) is Some
                && untouched(staging.removed, doc_pointer(doc)->Some_0);
        assert(committed.docs.contains(doc));
        let pointer = lemma_committed_doc(committed, doc);
        lemma_left(staging.removed, doc, pointer);
        assert(kept.contains(doc));
        assert(staging.docs.contains(doc));
        lemma_matching_contains(staging.docs, field, event_id, doc);
    }
    if indexed(staging.docs, event_id) {
        let doc = lemma_matching_some(staging.docs, field, event_id);
        if staged.to_multiset().contains(doc) {
            assert(staged.contains(doc));
            let i = choose|i: int| 0 <= i < staged.len() && staged[i] == doc;
            lemma_doc_is(doc, staging.pending[i]);
            assert(has_term(doc, key.0, key.1));
            assert(hit(staging.pending[i], key));
            assert(staging.pending[i].event_id == event_id);
        } else {
            assert(kept.contains(doc));
            assert(committed.docs.contains(doc));
            let pointer = lemma_committed_doc(committed, doc);
            lemma_left(staging.removed, doc, pointer);
            assert(matching(committed.docs, field, event_id).contains(doc));
        }
    }
}

/// An addition keeps what the writer holds consistent with the index.
proof fn lemma_insert_consistent(
    committed: Committed,
    before: Staging,
    pointer: Pointer,
    content: Content,
)
    requires
        consistent(committed, before),
    ensures
        consistent(committed, after_insert(before, pointer, content)),
{
    broadcast use group_to_multiset_ensures;

    let after = after_insert(before, pointer, content);
    let doc = bookmark_doc(pointer, content);
    let staged = choose|staged: Seq<Doc>| #[trigger] holds(committed, before, staged);
    let more = staged.push(doc);
    assert(doc_is(doc, pointer));
    assert forall|i: int| 0 <= i < more.len() implies doc_is(#[trigger] more[i], after.pending[i]) by {
        if i < staged.len() {
            assert(more[i] == staged[i]);
        }
    }
    assert(after.docs =~= all_left(committed.docs, after.removed).add(more.to_multiset()));
    assert(holds(committed, after, more));
}

/// A removal leaves, of the committed documents, those that were left and do not have the key.
proof fn lemma_left_without(committed: Committed, removed: Set<Key>, key: Key)
    ensures
        all_left(committed.docs, removed.insert(key)) == without_term(
            all_left(committed.docs, removed),
            key.0,
            key.1,
        ),
{
    let docs = committed.docs;
    let more = removed.insert(key);
    assert forall|doc: Doc| left(more, doc) == (left(removed, doc) && !has_term(doc, key.0, key.1)) by {
        if left(more, doc) {
            assert(more.contains(key));
            assert forall|other: Key| #[trigger] removed.contains(other) implies !has_term(
                doc,
                other.0,
                other.1,
            ) by {
                assert(more.contains(other));
            }
        }
    }
    assert(all_left(docs, more) =~= without_term(all_left(docs, removed), key.0, key.1));
}

/// A removal keeps what the writer holds consistent with the index.
proof fn lemma_removal_consistent(committed: Committed, before: Staging, key: Key, found: bool)
    requires
        committed.private,
        consistent(committed, before),
        key.0 < 4,
        may_find(committed, key, found),
    ensures
        consistent(committed, after_removal(before, key, found)),
{
    broadcast use group_to_multiset_ensures;

    let after = after_removal(before, key, found);
    let staged = choose|staged: Seq<Doc>| #[trigger] holds(committed, before, staged);
    let keep_doc = |doc: Doc| !has_term(doc, key.0, key.1);
    let keep = |pointer: Pointer| !hit(pointer, key);
    assert forall|i: int| 0 <= i < staged.len() implies keep_doc(#[trigger] staged[i]) == keep(
        before.pending[i],
    ) by {
        lemma_doc_is(staged[i], before.pending[i]);
        assert(has_term(staged[i], key.0, key.1) == hit(before.pending[i], key));
    }
    lemma_paired_filter(staged, before.pending, keep_doc, keep);
    let kept = staged.filter(keep_doc);
    let committed_left = all_left(committed.docs, before.removed);
    lemma_left_without(committed, before.removed, key);
    if !found {
        let rest = without_term(committed_left, key.0, key.1);
        assert forall|doc: Doc| #[trigger] rest.count(doc) == committed_left.count(doc) by {
            if committed_left.contains(doc) && has_term(doc, key.0, key.1) {
                assert(committed.docs.contains(doc));
                lemma_matching_contains(committed.docs, key.0, key.1, doc);
            }
        }
        assert(rest =~= committed_left);
    }
    assert(after.docs =~= all_left(committed.docs, after.removed).add(kept.to_multiset()));
    assert(holds(committed, after, kept));
    assert forall|other: Key| #[trigger] after.removed.contains(other) implies other.0 < 4 by {
        assert(other == key || before.removed.contains(other));
    }
}

// ---------------------------------------------------------------------------------------------
// Operations, as functions of the documents
// ---------------------------------------------------------------------------------------------

/// What an addition makes of documents.
pub open spec fn docs_after_add(docs: Multiset<Doc>, pointer: Pointer, content: Content) -> Multiset<
    Doc,
> {
    if indexed(docs, pointer.event_id) {
        docs
    } else {
        docs.insert(bookmark_doc(pointer, content))
    }
}

/// What the removal of a bookmark makes of documents.
pub open spec fn docs_after_removal(docs: Multiset<Doc>, original: Seq<char>) -> Multiset<Doc> {
    without_term(docs, bookmark_schema().original_event_id, original)
}

/// The ids in the document of a bookmark.
pub open spec fn ids_in(doc: Doc) -> Pointer {
    Pointer {
        event_id: field_text(doc, bookmark_schema().event_id)->Some_0,
        original_event_id: field_text(doc, bookmark_schema().original_event_id)->Some_0,
        target_event_id: field_text(doc, bookmark_schema().target_event_id)->Some_0,
        target_room_id: field_text(doc, bookmark_schema().target_room_id)->Some_0,
    }
}

/// The documents with the same ids and new content.
pub open spec fn renewed_docs(held: Seq<Doc>, content: Content) -> Seq<Doc> {
    held.map_values(|doc: Doc| bookmark_doc(ids_in(doc), content))
}

/// Documents, in some order.
pub open spec fn in_order(docs: Multiset<Doc>) -> Seq<Doc> {
    choose|list: Seq<Doc>| #[trigger] list.to_multiset() == docs
}

/// The documents with the same ids and new content, one for each of those given.
pub open spec fn renewed(held: Multiset<Doc>, content: Content) -> Multiset<Doc> {
    renewed_docs(in_order(held), content).to_multiset()
}

/// It does not matter in what order documents are renewed.
proof fn lemma_renewed(list: Seq<Doc>, content: Content)
    ensures
        renewed(list.to_multiset(), content) == renewed_docs(list, content).to_multiset(),
{
    let other = in_order(list.to_multiset());
    assert(other.to_multiset() == list.to_multiset());
    lemma_map_of_list(other, list, |doc: Doc| bookmark_doc(ids_in(doc), content));
}

/// What the removal of the bookmarks of an event makes of documents.
pub open spec fn docs_after_target_removal(docs: Multiset<Doc>, target: Seq<char>) -> Multiset<Doc> {
    without_term(docs, bookmark_schema().target_event_id, target)
}

/// What an operation makes of documents.
pub open spec fn docs_after(docs: Multiset<Doc>, operation: Operation) -> Multiset<Doc> {
    match operation {
        Operation::Add(pointer, content) => docs_after_add(docs, pointer, content),
        Operation::Remove(original) => docs_after_removal(docs, original),
        Operation::RemoveWithTargetEventId(target) => docs_after_target_removal(docs, target),
        Operation::Edit(pointer, content) => docs_after_add(
            docs_after_removal(docs, pointer.original_event_id),
            pointer,
            content,
        ),
        Operation::EditWithTargetEventId(target, content) => docs_after_target_removal(
            docs,
            target,
        ).add(renewed(bookmarks_of(docs, target), content)),
        Operation::Noop => docs,
    }
}

/// Whether the event that an operation adds, if any, can be looked up.
pub open spec fn findable(operation: Operation) -> bool {
    match operation {
        Operation::Add(pointer, _) | Operation::Edit(pointer, _) => short(pointer.event_id),
        _ => true,
    }
}

/// An addition, in terms of documents.
proof fn lemma_add_docs(
    committed: Committed,
    before: Staging,
    pointer: Pointer,
    content: Content,
    after: Staging,
)
    requires
        committed.private,
        consistent(committed, before),
        add_step(committed, before, pointer, content, after),
    ensures
        consistent(committed, after),
        short(pointer.event_id) || before.pending.len() == 0 ==> after.docs == docs_after_add(
            before.docs,
            pointer,
            content,
        ),
{
    let is_indexed = choose|is_indexed: bool|
        {
            &&& #[trigger] may_list(committed, before, pointer.event_id, is_indexed)
            &&& after == after_add(before, pointer, content, is_indexed)
        };
    lemma_insert_consistent(committed, before, pointer, content);
    if short(pointer.event_id) {
        law_counted_means_held(committed, before, pointer.event_id);
    } else {
        let field = bookmark_schema().event_id;
        assert(matching(before.docs, field, pointer.event_id) =~= Multiset::empty());
        assert(matching(committed.docs, field, pointer.event_id) =~= Multiset::empty());
        assert(!some_untouched(
            matching(committed.docs, field, pointer.event_id),
            before.removed,
        ));
    }
}

/// An operation keeps what the writer holds consistent with the index, and does to the documents what
/// it should.
proof fn lemma_step_docs(
    committed: Committed,
    before: Staging,
    operation: Operation,
    after: Staging,
)
    requires
        committed.private,
        consistent(committed, before),
        op_step(committed, before, operation, after),
    ensures
        consistent(committed, after),
        findable(operation) || before.pending.len() == 0 ==> after.docs == docs_after(
            before.docs,
            operation,
        ),
{
    match operation {
        Operation::Add(pointer, content) => {
            lemma_add_docs(committed, before, pointer, content, after);
        },
        Operation::Remove(original) => {
            let key = original_key(original);
            let found = choose|found: bool| #[trigger]
                may_find(committed, key, found) && after == after_removal(before, key, found);
            lemma_removal_consistent(committed, before, key, found);
        },
        Operation::RemoveWithTargetEventId(target) => {
            let key = target_key(target);
            let found = choose|found: bool| #[trigger]
                may_find(committed, key, found) && after == after_removal(before, key, found);
            lemma_removal_consistent(committed, before, key, found);
        },
        Operation::Edit(pointer, content) => {
            let key = original_key(pointer.original_event_id);
            let middle = choose|middle: Staging| #[trigger]
                edit_step(committed, before, pointer, content, middle, after);
            let found = choose|found: bool| #[trigger]
                may_find(committed, key, found) && middle == after_removal(before, key, found);
            lemma_removal_consistent(committed, before, key, found);
            before.pending.lemma_filter_len(|pointer: Pointer| !hit(pointer, key));
            lemma_add_docs(committed, middle, pointer, content, after);
        },
        Operation::EditWithTargetEventId(target, content) => {
            let results = choose|results: Seq<Found>| #[trigger]
                renewal_step(committed, before, target, content, results, after);
            lemma_renewal_docs(committed, before, target, results, content, after);
        },
        Operation::Noop => {},
    }
}

/// An edit of the bookmarks of an event, in terms of documents.
proof fn lemma_renewal_docs(
    committed: Committed,
    before: Staging,
    target: Seq<char>,
    results: Seq<Found>,
    content: Content,
    after: Staging,
)
    requires
        committed.private,
        consistent(committed, before),
        renewal_step(committed, before, target, content, results, after),
    ensures
        consistent(committed, after),
        after.docs == docs_after(before.docs, Operation::EditWithTargetEventId(target, content)),
{
    broadcast use group_to_multiset_ensures;

    let key = target_key(target);
    let held = lemma_renewal(committed, before, key, results, content);
    let bookmarks = renewals(before.pending, before.removed, key, results);
    assert forall|i: int| 0 <= i < held.len() implies #[trigger] docs_of(bookmarks, content)[i]
        == renewed_docs(held, content)[i] by {
        assert(doc_is(held[i], bookmarks[i]));
        let old_content = choose|old_content: Content|
            held[i] == #[trigger] bookmark_doc(bookmarks[i], old_content);
        lemma_bookmark_doc(bookmarks[i], old_content);
        assert(ids_in(held[i]) =~= bookmarks[i]);
    }
    assert(docs_of(bookmarks, content) =~= renewed_docs(held, content));
    lemma_renewed(held, content);
    if results.len() == 0 && !is_staged(before.pending, key) {
        let hits = |pointer: Pointer| hit(pointer, key);
        let live = |pointer: Pointer| untouched(before.removed, pointer) && hit(pointer, key);
        assert(pointers(results) =~= Seq::empty());
        assert(pointers(results).filter(live) =~= Seq::empty()) by {
            reveal(Seq::filter);
        }
        if before.pending.filter(hits).len() > 0 {
            before.pending.lemma_filter_pred(hits, 0);
            let first = before.pending.filter(hits)[0];
            before.pending.lemma_filter_contains_rev(hits, first);
            assert(before.pending.contains(first));
            let i = choose|i: int| 0 <= i < before.pending.len() && before.pending[i] == first;
            assert(hit(before.pending[i], key));
        }
        assert(held.len() == 0);
        assert(renewed_docs(held, content) =~= Seq::empty());
        let found = bookmarks_of(before.docs, target);
        assert(found.len() == 0);
        assert forall|doc: Doc| before.docs.contains(doc) implies !has_term(doc, key.0, key.1) by {
            if has_term(doc, key.0, key.1) {
                lemma_matching_contains(before.docs, key.0, key.1, doc);
            }
        }
        assert(Seq::<Doc>::empty().to_multiset() =~= Multiset::empty());
        assert(before.docs =~= docs_after(
            before.docs,
            Operation::EditWithTargetEventId(target, content),
        ));
    }
}

/// A renewal keeps what the writer holds consistent with the index, and renews the documents with the
/// key, one by one.
proof fn lemma_renewal(
    committed: Committed,
    before: Staging,
    key: Key,
    results: Seq<Found>,
    content: Content,
) -> (held: Seq<Doc>)
    requires
        committed.private,
        consistent(committed, before),
        key.0 < 4,
        lists(matching(committed.docs, key.0, key.1), results),
    ensures
        consistent(committed, after_renewal(before, key, results, content)),
        held.to_multiset() == matching(before.docs, key.0, key.1),
        paired(held, renewals(before.pending, before.removed, key, results)),
{
    broadcast use group_to_multiset_ensures;

    let after = after_renewal(before, key, results, content);
    let staged = choose|staged: Seq<Doc>| #[trigger] holds(committed, before, staged);
    let found = choose|found: Seq<Doc>| #[trigger]
        found.to_multiset() == matching(committed.docs, key.0, key.1) && pointers_of(found, results);
    let committed_left = all_left(committed.docs, before.removed);
    let renewed = renewals(before.pending, before.removed, key, results);
    // The committed documents to renew.
    let live_doc = |doc: Doc| left(before.removed, doc) && has_term(doc, key.0, key.1);
    let removed = before.removed;
    let live = |pointer: Pointer| untouched(removed, pointer) && hit(pointer, key);
    let bookmarks = pointers(results);
    assert forall|i: int| 0 <= i < found.len() implies doc_is(#[trigger] found[i], bookmarks[i])
        && live_doc(found[i]) == live(bookmarks[i]) by {
        assert(found.contains(found[i]));
        assert(matching(committed.docs, key.0, key.1).contains(found[i]));
        assert(committed.docs.contains(found[i]));
        let pointer = lemma_committed_doc(committed, found[i]);
        assert(pointer == results[i].pointer);
        lemma_left(before.removed, found[i], pointer);
        lemma_doc_is(found[i], pointer);
        assert(has_term(found[i], key.0, key.1) == hit(pointer, key));
    }
    lemma_paired_filter(found, bookmarks, live_doc, live);
    let first = found.filter(live_doc);
    assert(first.to_multiset() =~= matching(committed_left, key.0, key.1));
    // The staged documents to renew, and those to keep.
    let hit_doc = |doc: Doc| has_term(doc, key.0, key.1);
    let hits = |pointer: Pointer| hit(pointer, key);
    let keep_doc = |doc: Doc| !has_term(doc, key.0, key.1);
    let keep = |pointer: Pointer| !hit(pointer, key);
    assert forall|i: int| 0 <= i < staged.len() implies hit_doc(#[trigger] staged[i]) == hits(
        before.pending[i],
    ) && keep_doc(staged[i]) == keep(before.pending[i]) by {
        lemma_doc_is(staged[i], before.pending[i]);
        assert(has_term(staged[i], key.0, key.1) == hit(before.pending[i], key));
    }
    lemma_paired_filter(staged, before.pending, hit_doc, hits);
    lemma_paired_filter(staged, before.pending, keep_doc, keep);
    let second = staged.filter(hit_doc);
    let kept = staged.filter(keep_doc);
    let held = first + second;
    lemma_multiset_commutative(first, second);
    assert(held.to_multiset() =~= matching(before.docs, key.0, key.1));
    assert forall|i: int| 0 <= i < held.len() implies doc_is(#[trigger] held[i], renewed[i]) by {
        if i < first.len() {
            assert(held[i] == first[i]);
        } else {
            assert(held[i] == second[i - first.len()]);
        }
    }
    // What is staged then.
    let fresh = docs_of(renewed, content);
    let all = kept + fresh;
    lemma_multiset_commutative(kept, fresh);
    assert forall|i: int| 0 <= i < all.len() implies doc_is(#[trigger] all[i], after.pending[i]) by {
        if i < kept.len() {
            assert(all[i] == kept[i]);
        } else {
            assert(all[i] == bookmark_doc(renewed[i - kept.len()], content));
        }
    }
    lemma_left_without(committed, before.removed, key);
    if results.len() == 0 {
        lemma_lists_len(committed, key, results);
        let rest = without_term(committed_left, key.0, key.1);
        assert forall|doc: Doc| #[trigger] rest.count(doc) == committed_left.count(doc) by {
            if committed_left.contains(doc) && has_term(doc, key.0, key.1) {
                assert(committed.docs.contains(doc));
                lemma_matching_contains(committed.docs, key.0, key.1, doc);
            }
        }
        assert(rest =~= committed_left);
    }
    assert(after.docs =~= all_left(committed.docs, after.removed).add(all.to_multiset()));
    assert(holds(committed, after, all));
    assert forall|other: Key| #[trigger] after.removed.contains(other) implies other.0 < 4 by {
        assert(other == key || before.removed.contains(other));
    }
    held
}

/// What executing one operation on a private index comes to: a step from what is committed, after
/// which the writer is consistent with the index.
proof fn lemma_executed_step(before: IndexModel, operation: Operation, after: IndexModel) -> (steps: (
    Staging,
    Staging,
))
    requires
        before.committed.private,
        all_bookmarks(before.committed.docs),
        executed_one(before, operation, after),
    ensures
        op_step(before.committed, steps.0, operation, steps.1),
        steps.0.docs == before.committed.docs,
        steps.0.pending.len() == 0,
        steps.0.removed == Set::<Key>::empty(),
        consistent(before.committed, steps.0),
        consistent(before.committed, steps.1),
        after.committed.docs == steps.1.docs,
        after.committed.docs == docs_after(before.committed.docs, operation),
{
    let (start, staging) = choose|start: Staging, staging: Staging|
        {
            &&& #[trigger] op_step(before.committed, start, operation, staging)
            &&& may_start(before, start)
            &&& after.committed.docs == staging.docs
        };
    lemma_start(before, start);
    lemma_step_docs(before.committed, start, operation, staging);
    (start, staging)
}

// ---------------------------------------------------------------------------------------------
// Additions
// ---------------------------------------------------------------------------------------------

/// A bookmark that is added is indexed: if its event was not indexed before, its document is added
/// and nothing else changes, and if it was, nothing changes. An event whose id is too long to be
/// looked up does not count as indexed.
pub proof fn law_added_bookmark_is_indexed(
    before: IndexModel,
    pointer: Pointer,
    content: Content,
    after: IndexModel,
)
    requires
        before.committed.private,
        all_bookmarks(before.committed.docs),
        executed_one(before, Operation::Add(pointer, content), after),
    ensures
        short(pointer.event_id) ==> indexed(after.committed.docs, pointer.event_id),
        after.committed.docs == docs_after_add(before.committed.docs, pointer, content),
{
    let steps = lemma_executed_step(before, Operation::Add(pointer, content), after);
    lemma_bookmark_doc(pointer, content);
    if short(pointer.event_id) && !indexed(before.committed.docs, pointer.event_id) {
        let doc = bookmark_doc(pointer, content);
        assert(after.committed.docs.contains(doc));
        lemma_matching_contains(
            after.committed.docs,
            bookmark_schema().event_id,
            pointer.event_id,
            doc,
        );
    }
}

/// Adding a bookmark again changes nothing.
pub proof fn law_add_is_idempotent(
    before: IndexModel,
    pointer: Pointer,
    content: Content,
    once: IndexModel,
    again: Content,
    twice: IndexModel,
)
    requires
        before.committed.private,
        all_bookmarks(before.committed.docs),
        once.committed.private,
        all_bookmarks(once.committed.docs),
        short(pointer.event_id),
        executed_one(before, Operation::Add(pointer, content), once),
        executed_one(once, Operation::Add(pointer, again), twice),
    ensures
        twice.committed.docs == once.committed.docs,
{
    law_added_bookmark_is_indexed(before, pointer, content, once);
    law_added_bookmark_is_indexed(once, pointer, again, twice);
}

/// Once a bookmark was added it counts as indexed, also before it is committed.
pub proof fn law_added_counts_as_indexed(
    committed: Committed,
    before: Staging,
    pointer: Pointer,
    content: Content,
    after: Staging,
)
    requires
        committed.private,
        add_step(committed, before, pointer, content, after),
    ensures
        listed(committed, after, pointer.event_id),
{
    if !listed(committed, before, pointer.event_id) {
        let n = before.pending.len() as int;
        assert(after.pending[n].event_id == pointer.event_id);
    }
}

/// Two additions of one event before a commit leave one document, that of the first.
pub proof fn law_two_additions_leave_one_document(
    committed: Committed,
    before: Staging,
    pointer: Pointer,
    content: Content,
    once: Staging,
    other: Pointer,
    other_content: Content,
    twice: Staging,
)
    requires
        committed.private,
        !listed(committed, before, pointer.event_id),
        other.event_id == pointer.event_id,
        add_step(committed, before, pointer, content, once),
        add_step(committed, once, other, other_content, twice),
    ensures
        once.docs == before.docs.insert(bookmark_doc(pointer, content)),
        twice == once,
{
    law_added_counts_as_indexed(committed, before, pointer, content, once);
}

// ---------------------------------------------------------------------------------------------
// Removals
// ---------------------------------------------------------------------------------------------

/// A bookmark that is removed is gone, in all its versions, wherever the index is stored.
pub proof fn law_removed_bookmark_is_gone(before: IndexModel, original: Seq<char>, after: IndexModel)
    requires
        executed_one(before, Operation::Remove(original), after),
    ensures
        versions_of(after.committed.docs, original).len() == 0,
{
    let (start, staging) = choose|start: Staging, staging: Staging|
        {
            &&& #[trigger] op_step(before.committed, start, Operation::Remove(original), staging)
            &&& may_start(before, start)
            &&& after.committed.docs == staging.docs
        };
    let key = original_key(original);
    assert(removal_step(before.committed, start, key, staging));
    assert(staging.docs == without_term(start.docs, key.0, key.1));
    assert(versions_of(staging.docs, original) =~= Multiset::empty());
}

/// The removal of a bookmark leaves every other document.
pub proof fn law_removal_leaves_the_rest(
    before: IndexModel,
    original: Seq<char>,
    after: IndexModel,
    doc: Doc,
)
    requires
        before.committed.private,
        all_bookmarks(before.committed.docs),
        executed_one(before, Operation::Remove(original), after),
        !has_term(doc, bookmark_schema().original_event_id, original),
    ensures
        after.committed.docs.count(doc) == before.committed.docs.count(doc),
{
    let steps = lemma_executed_step(before, Operation::Remove(original), after);
}

/// Removing a bookmark again changes nothing.
pub proof fn law_removal_is_idempotent(
    before: IndexModel,
    original: Seq<char>,
    once: IndexModel,
    twice: IndexModel,
)
    requires
        before.committed.private,
        all_bookmarks(before.committed.docs),
        once.committed.private,
        all_bookmarks(once.committed.docs),
        executed_one(before, Operation::Remove(original), once),
        executed_one(once, Operation::Remove(original), twice),
    ensures
        twice.committed.docs == once.committed.docs,
{
    let first = lemma_executed_step(before, Operation::Remove(original), once);
    let second = lemma_executed_step(once, Operation::Remove(original), twice);
    assert(twice.committed.docs =~= once.committed.docs);
}

/// The removal of the bookmarks of an event leaves none of them, wherever the index is stored, and every
/// other document.
pub proof fn law_removed_target_is_gone(before: IndexModel, target: Seq<char>, after: IndexModel)
    requires
        executed_one(before, Operation::RemoveWithTargetEventId(target), after),
    ensures
        bookmarks_of(after.committed.docs, target).len() == 0,
        before.committed.private ==> after.committed.docs == docs_after_target_removal(
            before.committed.docs,
            target,
        ),
{
    let (start, staging) = choose|start: Staging, staging: Staging|
        {
            &&& #[trigger] op_step(
                before.committed,
                start,
                Operation::RemoveWithTargetEventId(target),
                staging,
            )
            &&& may_start(before, start)
            &&& after.committed.docs == staging.docs
        };
    let key = target_key(target);
    assert(removal_step(before.committed, start, key, staging));
    assert(staging.docs == without_term(start.docs, key.0, key.1));
    assert(bookmarks_of(staging.docs, target) =~= Multiset::empty());
}

/// An operation on the bookmarks of an event that is not bookmarked leaves everything as it is: what
/// the writer holds, and what counts as added and removed.
pub proof fn law_unknown_target_is_left_alone(
    committed: Committed,
    before: Staging,
    target: Seq<char>,
    operation: Operation,
    after: Staging,
)
    requires
        committed.private,
        consistent(committed, before),
        !has_key(committed, target_key(target)),
        !is_staged(before.pending, target_key(target)),
        match operation {
            Operation::RemoveWithTargetEventId(id) | Operation::EditWithTargetEventId(id, _) => id
                == target,
            _ => false,
        },
        op_step(committed, before, operation, after),
    ensures
        after == before,
{
    broadcast use group_to_multiset_ensures;

    let key = target_key(target);
    match operation {
        Operation::RemoveWithTargetEventId(t) => {
            let found = choose|found: bool| #[trigger]
                may_find(committed, key, found) && after == after_removal(before, key, found);
            let staged = choose|staged: Seq<Doc>| #[trigger] holds(committed, before, staged);
            assert forall|doc: Doc| #[trigger] before.docs.contains(doc) implies !has_term(
                doc,
                key.0,
                key.1,
            ) by {
                if has_term(doc, key.0, key.1) {
                    if committed.docs.contains(doc) {
                        lemma_matching_contains(committed.docs, key.0, key.1, doc);
                    }
                    assert(staged.contains(doc));
                    let i = choose|i: int| 0 <= i < staged.len() && staged[i] == doc;
                    lemma_doc_is(staged[i], before.pending[i]);
                    assert(hit(before.pending[i], key));
                }
            }
            assert forall|doc: Doc| #[trigger] after.docs.count(doc) == before.docs.count(doc) by {
                if before.docs.count(doc) > 0 {
                    assert(before.docs.contains(doc));
                }
            }
            assert(after.docs =~= before.docs);
            lemma_all_kept(before.pending, |pointer: Pointer| !hit(pointer, key));
        },
        Operation::EditWithTargetEventId(t, content) => {
            let results = choose|results: Seq<Found>| #[trigger]
                renewal_step(committed, before, t, content, results, after);
            lemma_lists_len(committed, key, results);
        },
        _ => {},
    }
}

/// A filter that keeps all keeps the list.
proof fn lemma_all_kept(bookmarks: Seq<Pointer>, keep: spec_fn(Pointer) -> bool)
    requires
        forall|i: int| 0 <= i < bookmarks.len() ==> keep(#[trigger] bookmarks[i]),
    ensures
        bookmarks.filter(keep) == bookmarks,
    decreases bookmarks.len(),
{
    reveal(Seq::filter);
    if bookmarks.len() > 0 {
        let rest = bookmarks.drop_last();
        assert forall|i: int| 0 <= i < rest.len() implies keep(#[trigger] rest[i]) by {
            assert(rest[i] == bookmarks[i]);
        }
        lemma_all_kept(rest, keep);
        assert(keep(bookmarks[bookmarks.len() - 1]));
        assert(rest.push(bookmarks.last()) =~= bookmarks);
    }
}

/// A writer starts consistent with a private index, and stays so with every operation.
pub proof fn law_writer_stays_consistent(
    model: IndexModel,
    operations: Seq<Operation>,
    path: Seq<Staging>,
    n: int,
)
    requires
        model.committed.private,
        all_bookmarks(model.committed.docs),
        may_start(model, path[0]),
        op_steps(model.committed, operations, path),
        0 <= n <= operations.len(),
    ensures
        consistent(model.committed, path[n]),
{
    lemma_start(model, path[0]);
    lemma_steps_unique(model.committed, operations, path, n);
}

// ---------------------------------------------------------------------------------------------
// Edits
// ---------------------------------------------------------------------------------------------

/// An edit leaves exactly one version of a bookmark, the new one, and every other document, as long
/// as the event of the new version is not indexed as a version of another bookmark.
pub proof fn law_edit_leaves_the_new_version(
    before: IndexModel,
    pointer: Pointer,
    content: Content,
    after: IndexModel,
)
    requires
        before.committed.private,
        all_bookmarks(before.committed.docs),
        forall|doc: Doc| #[trigger]
            matching(before.committed.docs, bookmark_schema().event_id, pointer.event_id).contains(
                doc,
            ) ==> has_term(doc, bookmark_schema().original_event_id, pointer.original_event_id),
        executed_one(before, Operation::Edit(pointer, content), after),
    ensures
        after.committed.docs == docs_after_removal(
            before.committed.docs,
            pointer.original_event_id,
        ).insert(bookmark_doc(pointer, content)),
        short(pointer.original_event_id) ==> versions_of(
            after.committed.docs,
            pointer.original_event_id,
        ) == Multiset::singleton(bookmark_doc(pointer, content)),
{
    let steps = lemma_executed_step(before, Operation::Edit(pointer, content), after);
    let rest = docs_after_removal(before.committed.docs, pointer.original_event_id);
    if indexed(rest, pointer.event_id) {
        let doc = lemma_matching_some(rest, bookmark_schema().event_id, pointer.event_id);
        assert(before.committed.docs.contains(doc));
        assert(matching(before.committed.docs, bookmark_schema().event_id, pointer.event_id).contains(
            doc,
        ));
    }
    lemma_bookmark_doc(pointer, content);
    if short(pointer.original_event_id) {
        assert(versions_of(after.committed.docs, pointer.original_event_id)
            =~= Multiset::singleton(bookmark_doc(pointer, content)));
    }
}

/// Doing nothing changes nothing.
pub proof fn law_noop_changes_nothing(before: IndexModel, after: IndexModel)
    requires
        before.committed.private,
        all_bookmarks(before.committed.docs),
        executed_one(before, Operation::Noop, after),
    ensures
        after.committed.docs == before.committed.docs,
{
    let steps = lemma_executed_step(before, Operation::Noop, after);
}

/// An edit of the bookmarks of an event renews the document of each, however many there are, and
/// leaves every other document. Where the event is not bookmarked it adds nothing.
pub proof fn law_target_edit_renews(
    before: IndexModel,
    target: Seq<char>,
    content: Content,
    after: IndexModel,
)
    requires
        before.committed.private,
        all_bookmarks(before.committed.docs),
        executed_one(before, Operation::EditWithTargetEventId(target, content), after),
    ensures
        after.committed.docs == docs_after_target_removal(before.committed.docs, target).add(
            renewed(bookmarks_of(before.committed.docs, target), content),
        ),
        bookmarks_of(before.committed.docs, target).len() == 0 ==> after.committed.docs
            == before.committed.docs,
{
    broadcast use group_to_multiset_ensures;

    let operation = Operation::EditWithTargetEventId(target, content);
    let steps = lemma_executed_step(before, operation, after);
    let docs = before.committed.docs;
    let found = bookmarks_of(docs, target);
    if found.len() == 0 {
        let key = target_key(target);
        let none = Seq::<Doc>::empty();
        assert(none.to_multiset() =~= Multiset::empty());
        assert(found =~= none.to_multiset()) by {
            assert forall|doc: Doc| #[trigger] found.count(doc) == 0 by {
                if found.contains(doc) {
                    assert(found =~= found.remove(doc).insert(doc));
                }
            }
        }
        lemma_renewed(none, content);
        assert(renewed_docs(none, content) =~= none);
        assert forall|doc: Doc| docs.contains(doc) implies !has_term(doc, key.0, key.1) by {
            if has_term(doc, key.0, key.1) {
                lemma_matching_contains(docs, key.0, key.1, doc);
            }
        }
        assert(after.committed.docs =~= docs);
    }
}

/// An edit of the bookmarks of an event with one bookmark leaves one, with the same ids and the new
/// content, and every other document.
pub proof fn law_single_target_edit_renews(
    before: IndexModel,
    target: Seq<char>,
    content: Content,
    after: IndexModel,
    doc: Doc,
)
    requires
        before.committed.private,
        all_bookmarks(before.committed.docs),
        bookmarks_of(before.committed.docs, target) == Multiset::singleton(doc),
        executed_one(before, Operation::EditWithTargetEventId(target, content), after),
    ensures
        doc_pointer(doc) matches Some(pointer) && {
            &&& bookmarks_of(after.committed.docs, target) == Multiset::singleton(
                bookmark_doc(pointer, content),
            )
            &&& after.committed.docs == docs_after_target_removal(
                before.committed.docs,
                target,
            ).insert(bookmark_doc(pointer, content))
        },
{
    broadcast use group_to_multiset_ensures;

    let key = target_key(target);
    let docs = before.committed.docs;
    law_target_edit_renews(before, target, content, after);
    let rest = docs_after_target_removal(docs, target);
    assert(bookmarks_of(docs, target).contains(doc));
    assert(docs.contains(doc));
    let pointer = lemma_committed_doc(before.committed, doc);
    let fresh = bookmark_doc(pointer, content);
    let held = Seq::<Doc>::empty().push(doc);
    assert(Seq::<Doc>::empty().to_multiset() =~= Multiset::empty());
    assert(held.to_multiset() =~= Multiset::singleton(doc));
    lemma_renewed(held, content);
    let old_content = choose|old_content: Content| doc == #[trigger] bookmark_doc(pointer, old_content);
    lemma_bookmark_doc(pointer, old_content);
    assert(ids_in(doc) =~= pointer);
    assert(renewed_docs(held, content) =~= Seq::empty().push(fresh));
    assert(renewed_docs(held, content).to_multiset() =~= Multiset::singleton(fresh));
    assert(after.committed.docs =~= rest.insert(fresh));
    lemma_doc_is(doc, pointer);
    lemma_bookmark_doc(pointer, content);
    assert(has_term(doc, key.0, key.1) == hit(pointer, key));
    assert(has_term(fresh, key.0, key.1));
    assert(bookmarks_of(after.committed.docs, target) =~= Multiset::singleton(fresh));
}

// ---------------------------------------------------------------------------------------------
// Unique ids
// ---------------------------------------------------------------------------------------------

/// Fewer documents have no more ids in common.
proof fn lemma_unique_fewer(docs: Multiset<Doc>, fewer: Multiset<Doc>)
    requires
        unique_ids(docs),
        forall|doc: Doc| #[trigger] fewer.count(doc) <= docs.count(doc),
    ensures
        unique_ids(fewer),
{
    assert forall|doc: Doc| #[trigger] fewer.contains(doc) implies docs.contains(doc) by {
        assert(fewer.count(doc) <= docs.count(doc));
    }
    assert forall|doc: Doc| #[trigger] fewer.count(doc) <= 1 by {
        assert(docs.count(doc) <= 1);
    }
}

/// An addition keeps ids unique.
proof fn lemma_unique_add(
    committed: Committed,
    before: Staging,
    pointer: Pointer,
    content: Content,
)
    requires
        consistent(committed, before),
        unique_ids(before.docs),
        short(pointer.event_id),
    ensures
        unique_ids(docs_after_add(before.docs, pointer, content)),
{
    let field = bookmark_schema().event_id;
    let key = (field, pointer.event_id);
    let doc = bookmark_doc(pointer, content);
    if !indexed(before.docs, pointer.event_id) {
        let after = before.docs.insert(doc);
        assert(doc_is(doc, pointer));
        lemma_doc_is(doc, pointer);
        assert forall|other: Doc| #[trigger] before.docs.contains(other) implies doc_event_id(other)
            != doc_event_id(doc) by {
            let held = lemma_held_doc(committed, before, other);
            lemma_doc_is(other, held);
            if held.event_id == pointer.event_id {
                assert(hit(held, key));
                assert(has_term(other, key.0, key.1));
                lemma_matching_contains(before.docs, field, pointer.event_id, other);
            }
        }
        assert forall|other: Doc| #[trigger] after.contains(other) implies other == doc
            || before.docs.contains(other) by {}
        assert forall|other: Doc| #[trigger] after.count(other) <= 1 by {
            assert(before.docs.count(other) <= 1);
            if other == doc {
                assert(!before.docs.contains(doc));
            }
        }
    }
}

/// A renewal keeps ids unique.
proof fn lemma_unique_renewal(
    committed: Committed,
    before: Staging,
    key: Key,
    results: Seq<Found>,
    content: Content,
)
    requires
        committed.private,
        consistent(committed, before),
        unique_ids(before.docs),
        key.0 < 4,
        lists(matching(committed.docs, key.0, key.1), results),
    ensures
        unique_ids(after_renewal(before, key, results, content).docs),
{
    broadcast use group_to_multiset_ensures;

    let held = lemma_renewal(committed, before, key, results, content);
    let renewed = renewals(before.pending, before.removed, key, results);
    let fresh = docs_of(renewed, content);
    let rest = without_term(before.docs, key.0, key.1);
    let after = after_renewal(before, key, results, content).docs;
    let found = matching(before.docs, key.0, key.1);
    // The documents to renew differ in their ids.
    assert forall|i: int| 0 <= i < held.len() implies before.docs.contains(#[trigger] held[i])
        && has_term(held[i], key.0, key.1) && doc_event_id(held[i]) == Some(renewed[i].event_id)
        && doc_event_id(fresh[i]) == Some(renewed[i].event_id) by {
        assert(held.contains(held[i]));
        assert(found.contains(held[i]));
        lemma_doc_is(held[i], renewed[i]);
        assert(doc_is(fresh[i], renewed[i]));
        lemma_doc_is(fresh[i], renewed[i]);
    }
    assert forall|i: int, j: int| 0 <= i < j < held.len() implies renewed[i].event_id
        != renewed[j].event_id by {
        if renewed[i].event_id == renewed[j].event_id {
            assert(before.docs.contains(held[i]) && before.docs.contains(held[j]));
            assert(held[i] == held[j]);
            lemma_twice(held, i, j);
            assert(found.count(held[i]) <= before.docs.count(held[i]));
            assert(before.docs.count(held[i]) <= 1);
        }
    }
    assert forall|i: int, j: int| 0 <= i < j < fresh.len() implies fresh[i] != fresh[j] by {
        assert(before.docs.contains(held[i]) && before.docs.contains(held[j]));
        assert(renewed[i].event_id != renewed[j].event_id);
    }
    assert(fresh.no_duplicates());
    fresh.lemma_multiset_has_no_duplicates();
    // Those that are kept have other ids than those renewed.
    assert forall|doc: Doc, i: int| #[trigger] rest.contains(doc) && 0 <= i < held.len() implies
        doc_event_id(doc) != doc_event_id(#[trigger] fresh[i]) by {
        assert(before.docs.contains(doc));
        assert(before.docs.contains(held[i]));
        if doc_event_id(doc) == doc_event_id(fresh[i]) {
            assert(doc == held[i]);
        }
    }
    assert forall|doc: Doc| #[trigger] after.contains(doc) implies rest.contains(doc) || exists|
        i: int,
    | 0 <= i < fresh.len() && doc == #[trigger] fresh[i] by {
        if !rest.contains(doc) {
            assert(fresh.to_multiset().contains(doc));
            assert(fresh.contains(doc));
        }
    }
    assert forall|doc: Doc| #[trigger] after.count(doc) <= 1 by {
        assert(before.docs.count(doc) <= 1);
        if fresh.to_multiset().contains(doc) {
            assert(fresh.contains(doc));
            let i = choose|i: int| 0 <= i < fresh.len() && fresh[i] == doc;
            if rest.contains(doc) {
                assert(doc_event_id(doc) != doc_event_id(fresh[i]));
            }
        }
    }
    assert forall|one: Doc, other: Doc|
        #[trigger] after.contains(one) && #[trigger] after.contains(other) && doc_event_id(one)
            == doc_event_id(other) implies one == other by {
        if rest.contains(one) && rest.contains(other) {
            assert(before.docs.contains(one) && before.docs.contains(other));
        } else if rest.contains(one) {
            let j = choose|j: int| 0 <= j < fresh.len() && other == #[trigger] fresh[j];
            assert(doc_event_id(one) != doc_event_id(fresh[j]));
        } else if rest.contains(other) {
            let i = choose|i: int| 0 <= i < fresh.len() && one == #[trigger] fresh[i];
            assert(doc_event_id(other) != doc_event_id(fresh[i]));
        } else {
            let i = choose|i: int| 0 <= i < fresh.len() && one == #[trigger] fresh[i];
            let j = choose|j: int| 0 <= j < fresh.len() && other == #[trigger] fresh[j];
            assert(before.docs.contains(held[i]) && before.docs.contains(held[j]));
            if i < j {
                assert(renewed[i].event_id != renewed[j].event_id);
            } else if j < i {
                assert(renewed[j].event_id != renewed[i].event_id);
            }
        }
    }
}

/// What is in a list twice counts twice.
proof fn lemma_twice(docs: Seq<Doc>, i: int, j: int)
    requires
        0 <= i < j < docs.len(),
        docs[i] == docs[j],
    ensures
        docs.to_multiset().count(docs[i]) >= 2,
{
    broadcast use group_to_multiset_ensures;

    let rest = docs.remove(j);
    assert(rest[i] == docs[i]);
    assert(rest.contains(docs[i]));
    assert(rest.to_multiset().count(docs[i]) > 0);
    assert(rest.to_multiset() == docs.to_multiset().remove(docs[j]));
}

/// One operation keeps ids unique.
proof fn lemma_unique_step(
    committed: Committed,
    before: Staging,
    operation: Operation,
    after: Staging,
)
    requires
        committed.private,
        consistent(committed, before),
        unique_ids(before.docs),
        findable(operation),
        op_step(committed, before, operation, after),
    ensures
        unique_ids(after.docs),
{
    lemma_step_docs(committed, before, operation, after);
    match operation {
        Operation::Add(pointer, content) => {
            lemma_unique_add(committed, before, pointer, content);
        },
        Operation::Remove(original) => {
            lemma_unique_fewer(before.docs, after.docs);
        },
        Operation::RemoveWithTargetEventId(target) => {
            lemma_unique_fewer(before.docs, after.docs);
        },
        Operation::Edit(pointer, content) => {
            let key = original_key(pointer.original_event_id);
            let middle = choose|middle: Staging| #[trigger]
                edit_step(committed, before, pointer, content, middle, after);
            let found = choose|found: bool| #[trigger]
                may_find(committed, key, found) && middle == after_removal(before, key, found);
            lemma_removal_consistent(committed, before, key, found);
            lemma_unique_fewer(before.docs, middle.docs);
            lemma_add_docs(committed, middle, pointer, content, after);
            lemma_unique_add(committed, middle, pointer, content);
        },
        Operation::EditWithTargetEventId(target, content) => {
            let results = choose|results: Seq<Found>| #[trigger]
                renewal_step(committed, before, target, content, results, after);
            if after != before {
                lemma_unique_renewal(committed, before, target_key(target), results, content);
            }
        },
        Operation::Noop => {},
    }
}

/// Operations through a list of stagings keep what the writer holds consistent with the index, and
/// ids unique.
proof fn lemma_steps_unique(
    committed: Committed,
    operations: Seq<Operation>,
    path: Seq<Staging>,
    n: int,
)
    requires
        committed.private,
        op_steps(committed, operations, path),
        consistent(committed, path[0]),
        0 <= n <= operations.len(),
    ensures
        consistent(committed, path[n]),
        unique_ids(path[0].docs) && (forall|i: int|
            0 <= i < operations.len() ==> findable(#[trigger] operations[i])) ==> unique_ids(
            path[n].docs,
        ),
    decreases n,
{
    if n > 0 {
        lemma_steps_unique(committed, operations, path, n - 1);
        assert(op_step(committed, path[n - 1], operations[n - 1], path[n - 1 + 1]));
        lemma_step_docs(committed, path[n - 1], operations[n - 1], path[n]);
        if unique_ids(path[n - 1].docs) && findable(operations[n - 1]) {
            lemma_unique_step(committed, path[n - 1], operations[n - 1], path[n]);
        }
    }
}

/// The id of a bookmark event is a primary key: where no two documents are those of the same event,
/// that is so after every operation, as long as the id that it adds is short enough to be looked up.
pub proof fn law_ids_stay_unique(before: IndexModel, operation: Operation, after: IndexModel)
    requires
        before.committed.private,
        all_bookmarks(before.committed.docs),
        unique_ids(before.committed.docs),
        findable(operation),
        executed_one(before, operation, after),
    ensures
        unique_ids(after.committed.docs),
{
    let steps = lemma_executed_step(before, operation, after);
    lemma_unique_step(before.committed, steps.0, operation, steps.1);
}

/// Ids stay unique after operations in one go, in the same sense.
pub proof fn law_ids_stay_unique_in_bulk(
    before: IndexModel,
    operations: Seq<Operation>,
    after: IndexModel,
)
    requires
        before.committed.private,
        all_bookmarks(before.committed.docs),
        unique_ids(before.committed.docs),
        forall|i: int| 0 <= i < operations.len() ==> findable(#[trigger] operations[i]),
        executed_all(before, operations, after),
    ensures
        unique_ids(after.committed.docs),
{
    let path = choose|path: Seq<Staging>|
        {
            &&& #[trigger] op_steps(before.committed, operations, path)
            &&& may_start(before, path[0])
            &&& after.committed.docs == path.last().docs
        };
    lemma_start(before, path[0]);
    lemma_steps_unique(before.committed, operations, path, operations.len() as int);
}

// ---------------------------------------------------------------------------------------------
// Operations in one go
// ---------------------------------------------------------------------------------------------

/// What operations make of documents, one after the other.
pub open spec fn docs_after_all(docs: Multiset<Doc>, operations: Seq<Operation>) -> Multiset<Doc>
    decreases operations.len(),
{
    if operations.len() == 0 {
        docs
    } else {
        docs_after(docs_after_all(docs, operations.drop_last()), operations.last())
    }
}

/// Operations through a list of stagings do to the documents what they do one after the other.
proof fn lemma_steps_docs(
    committed: Committed,
    operations: Seq<Operation>,
    path: Seq<Staging>,
    n: int,
)
    requires
        committed.private,
        op_steps(committed, operations, path),
        consistent(committed, path[0]),
        forall|i: int| 0 <= i < operations.len() ==> findable(#[trigger] operations[i]),
        0 <= n <= operations.len(),
    ensures
        consistent(committed, path[n]),
        path[n].docs == docs_after_all(path[0].docs, operations.take(n)),
    decreases n,
{
    if n > 0 {
        lemma_steps_docs(committed, operations, path, n - 1);
        assert(op_step(committed, path[n - 1], operations[n - 1], path[n - 1 + 1]));
        lemma_step_docs(committed, path[n - 1], operations[n - 1], path[n]);
        assert(operations.take(n).drop_last() =~= operations.take(n - 1));
        assert(operations.take(n).last() == operations[n - 1]);
    } else {
        assert(operations.take(0) =~= Seq::empty());
    }
}

/// Operations executed in one go do what they do one after the other, as long as the ids that they add
/// are short enough to be looked up.
pub proof fn law_bulk_does_what_its_operations_do(
    before: IndexModel,
    operations: Seq<Operation>,
    after: IndexModel,
)
    requires
        before.committed.private,
        all_bookmarks(before.committed.docs),
        forall|i: int| 0 <= i < operations.len() ==> findable(#[trigger] operations[i]),
        executed_all(before, operations, after),
    ensures
        after.committed.docs == docs_after_all(before.committed.docs, operations),
{
    let path = choose|path: Seq<Staging>|
        {
            &&& #[trigger] op_steps(before.committed, operations, path)
            &&& may_start(before, path[0])
            &&& after.committed.docs == path.last().docs
        };
    lemma_start(before, path[0]);
    lemma_steps_docs(before.committed, operations, path, operations.len() as int);
    assert(operations.take(operations.len() as int) =~= operations);
}

/// Whether each operation was executed and committed before the next.
pub open spec fn executed_singly(operations: Seq<Operation>, states: Seq<IndexModel>) -> bool {
    &&& states.len() == operations.len() + 1
    &&& forall|i: int|
        0 <= i < operations.len() ==> executed_one(
            states[i],
            #[trigger] operations[i],
            states[i + 1],
        )
}

/// Operations executed in one go leave the same as when each is committed before the next, as long as the
/// ids that they add are short enough to be looked up.
pub proof fn law_bulk_is_one_by_one(
    operations: Seq<Operation>,
    states: Seq<IndexModel>,
    bulk: IndexModel,
)
    requires
        executed_singly(operations, states),
        executed_all(states[0], operations, bulk),
        forall|i: int|
            0 <= i < states.len() ==> (#[trigger] states[i]).committed.private && all_bookmarks(
                states[i].committed.docs,
            ),
        forall|i: int| 0 <= i < operations.len() ==> findable(#[trigger] operations[i]),
    ensures
        bulk.committed.docs == states.last().committed.docs,
{
    law_bulk_does_what_its_operations_do(states[0], operations, bulk);
    lemma_singly_docs(operations, states, operations.len() as int);
    assert(operations.take(operations.len() as int) =~= operations);
}

/// Operations executed one by one do to the documents what they do one after the other.
proof fn lemma_singly_docs(operations: Seq<Operation>, states: Seq<IndexModel>, n: int)
    requires
        executed_singly(operations, states),
        forall|i: int|
            0 <= i < states.len() ==> (#[trigger] states[i]).committed.private && all_bookmarks(
                states[i].committed.docs,
            ),
        forall|i: int| 0 <= i < operations.len() ==> findable(#[trigger] operations[i]),
        0 <= n <= operations.len(),
    ensures
        states[n].committed.docs == docs_after_all(states[0].committed.docs, operations.take(n)),
    decreases n,
{
    if n > 0 {
        lemma_singly_docs(operations, states, n - 1);
        assert(executed_one(states[n - 1], operations[n - 1], states[n - 1 + 1]));
        let steps = lemma_executed_step(states[n - 1], operations[n - 1], states[n]);
        assert(operations.take(n).drop_last() =~= operations.take(n - 1));
        assert(operations.take(n).last() == operations[n - 1]);
    } else {
        assert(operations.take(0) =~= Seq::empty());
    }
}

/// An operation that failed midway, however often, and then succeeds has the effect of the operation
/// alone.
pub proof fn law_retries_are_harmless(
    committed: Committed,
    before: Staging,
    operation: Operation,
    failed_once: Staging,
    failed_again: Staging,
    after: Staging,
)
    requires
        partial_step(committed, before, operation, failed_once),
        partial_step(committed, failed_once, operation, failed_again),
        op_step(committed, failed_again, operation, after),
    ensures
        op_step(committed, before, operation, after),
{
    lemma_partial_twice(committed, before, operation, failed_once, failed_again);
    lemma_retry(committed, before, operation, failed_again, after);
}

/// An operation is tried again exactly as long as it fails in a way that may pass, and as often as
/// allowed: it ends with the first try that succeeds, with the first failure of another kind, or with
/// the last try that is allowed.
pub proof fn law_operation_is_tried_as_needed(
    outcomes: Seq<Result<(), IndexError>>,
    retries: usize,
    executed: Result<(), IndexError>,
)
    requires
        tried(outcomes, retries, executed),
    ensures
        forall|i: int|
            0 <= i < outcomes.len() - 1 ==> ((#[trigger] outcomes[i]) matches Err(error)
                && failure_policy(error) is Retry),
        match outcomes.last() {
            Ok(_) => executed is Ok,
            Err(error) => match failure_policy(error) {
                FailurePolicy::Retry => outcomes.len() == retries + 1 && executed == outcomes.last(),
                FailurePolicy::Bubble => executed == outcomes.last(),
                FailurePolicy::Ignore => outcomes.len() <= retries ==> executed is Ok,
            },
        },
        retries == 0 ==> outcomes.len() == 1,
        outcomes.len() == retries + 1 && outcomes.last() is Err ==> executed == outcomes.last(),
{
    assert forall|i: int| 0 <= i < outcomes.len() - 1 implies ((#[trigger] outcomes[i]) matches Err(
        error,
    ) && failure_policy(error) is Retry) by {
        assert(to_be_tried_again(outcomes[i], i, retries));
    }
}

/// An operation is executed as a whole or not at all, as far as what is committed is still known, and
/// a failure that is not the engine's commits nothing.
pub proof fn law_execution_is_all_or_nothing(
    before: IndexModel,
    operation: Operation,
    executed: Result<(), IndexError>,
    after: IndexModel,
)
    requires
        execute_outcome(before, operation, executed, after),
    ensures
        executed is Ok ==> executed_one(before, operation, after),
        after.committed.private ==> after.committed == before.committed || executed_one(
            before,
            operation,
            after,
        ),
        executed matches Err(error) && !(error is TantivyError) ==> after.committed
            == before.committed,
{
}

/// Operations in one go are executed all or none, in the same sense.
pub proof fn law_bulk_execution_is_all_or_nothing(
    before: IndexModel,
    operations: Seq<Operation>,
    executed: Result<(), IndexError>,
    after: IndexModel,
)
    requires
        bulk_outcome(before, operations, executed, after),
    ensures
        executed is Ok ==> executed_all(before, operations, after),
        after.committed.private ==> after.committed == before.committed || executed_all(
            before,
            operations,
            after,
        ),
        executed matches Err(error) && !(error is TantivyError) ==> after.committed
            == before.committed,
{
}

// ---------------------------------------------------------------------------------------------
// The documents, one by one
// ---------------------------------------------------------------------------------------------

/// An addition leaves every document as it is. It adds one, that of the bookmark, unless there is one
/// with the id of the event, and then it adds none.
pub proof fn law_addition_adds_what_is_missing(
    before: IndexModel,
    pointer: Pointer,
    content: Content,
    after: IndexModel,
)
    requires
        before.committed.private,
        all_bookmarks(before.committed.docs),
        executed_one(before, Operation::Add(pointer, content), after),
    ensures
        (exists|doc: Doc| #[trigger]
            before.committed.docs.contains(doc) && has_term(
                doc,
                bookmark_schema().event_id,
                pointer.event_id,
            )) ==> after.committed.docs == before.committed.docs,
        (forall|doc: Doc| #[trigger]
            before.committed.docs.contains(doc) ==> !has_term(
                doc,
                bookmark_schema().event_id,
                pointer.event_id,
            )) ==> after.committed.docs == before.committed.docs.insert(
            bookmark_doc(pointer, content),
        ),
{
    let docs = before.committed.docs;
    let field = bookmark_schema().event_id;
    lemma_executed_step(before, Operation::Add(pointer, content), after);
    if exists|doc: Doc| #[trigger] docs.contains(doc) && has_term(doc, field, pointer.event_id) {
        let doc = choose|doc: Doc| #[trigger]
            docs.contains(doc) && has_term(doc, field, pointer.event_id);
        lemma_matching_contains(docs, field, pointer.event_id, doc);
    }
    if indexed(docs, pointer.event_id) {
        let doc = lemma_matching_some(docs, field, pointer.event_id);
    }
}

/// A removal removes every document of a version of the bookmark, and leaves every other one.
pub proof fn law_removal_removes_all_versions(
    before: IndexModel,
    original: Seq<char>,
    after: IndexModel,
    doc: Doc,
)
    requires
        before.committed.private,
        all_bookmarks(before.committed.docs),
        executed_one(before, Operation::Remove(original), after),
    ensures
        has_term(doc, bookmark_schema().original_event_id, original)
            ==> after.committed.docs.count(doc) == 0,
        !has_term(doc, bookmark_schema().original_event_id, original)
            ==> after.committed.docs.count(doc) == before.committed.docs.count(doc),
{
    lemma_executed_step(before, Operation::Remove(original), after);
}

/// A removal by the bookmarked event removes every document of a bookmark of that event, and leaves
/// every other one.
pub proof fn law_target_removal_removes_all_bookmarks(
    before: IndexModel,
    target: Seq<char>,
    after: IndexModel,
    doc: Doc,
)
    requires
        before.committed.private,
        all_bookmarks(before.committed.docs),
        executed_one(before, Operation::RemoveWithTargetEventId(target), after),
    ensures
        has_term(doc, bookmark_schema().target_event_id, target) ==> after.committed.docs.count(doc)
            == 0,
        !has_term(doc, bookmark_schema().target_event_id, target)
            ==> after.committed.docs.count(doc) == before.committed.docs.count(doc),
{
    lemma_executed_step(before, Operation::RemoveWithTargetEventId(target), after);
}

/// An edit removes every document of a version of the bookmark, leaves every other one, and adds the
/// document of the new version, unless one of those left has the id of its event.
pub proof fn law_edit_replaces_all_versions(
    before: IndexModel,
    pointer: Pointer,
    content: Content,
    after: IndexModel,
    rest: Multiset<Doc>,
)
    requires
        before.committed.private,
        all_bookmarks(before.committed.docs),
        executed_one(before, Operation::Edit(pointer, content), after),
        forall|doc: Doc| #[trigger]
            rest.count(doc) == if has_term(
                doc,
                bookmark_schema().original_event_id,
                pointer.original_event_id,
            ) {
                0
            } else {
                before.committed.docs.count(doc)
            },
    ensures
        (exists|doc: Doc| #[trigger]
            rest.contains(doc) && has_term(doc, bookmark_schema().event_id, pointer.event_id))
            ==> after.committed.docs == rest,
        (forall|doc: Doc| #[trigger]
            rest.contains(doc) ==> !has_term(doc, bookmark_schema().event_id, pointer.event_id))
            ==> after.committed.docs == rest.insert(bookmark_doc(pointer, content)),
{
    let field = bookmark_schema().event_id;
    lemma_executed_step(before, Operation::Edit(pointer, content), after);
    assert(rest =~= docs_after_removal(before.committed.docs, pointer.original_event_id));
    if exists|doc: Doc| #[trigger] rest.contains(doc) && has_term(doc, field, pointer.event_id) {
        let doc = choose|doc: Doc| #[trigger]
            rest.contains(doc) && has_term(doc, field, pointer.event_id);
        lemma_matching_contains(rest, field, pointer.event_id, doc);
    }
    if indexed(rest, pointer.event_id) {
        let doc = lemma_matching_some(rest, field, pointer.event_id);
    }
}

/// An edit by the bookmarked event keeps every bookmark of that event, with its ids, and gives it the
/// new content. It leaves every other document.
pub proof fn law_target_edit_gives_new_content(
    before: IndexModel,
    target: Seq<char>,
    content: Content,
    after: IndexModel,
    of_target: Seq<Doc>,
    others: Seq<Doc>,
)
    requires
        before.committed.private,
        all_bookmarks(before.committed.docs),
        executed_one(before, Operation::EditWithTargetEventId(target, content), after),
        before.committed.docs == of_target.to_multiset().add(others.to_multiset()),
        forall|i: int|
            0 <= i < of_target.len() ==> has_term(
                #[trigger] of_target[i],
                bookmark_schema().target_event_id,
                target,
            ),
        forall|i: int|
            0 <= i < others.len() ==> !has_term(
                #[trigger] others[i],
                bookmark_schema().target_event_id,
                target,
            ),
    ensures
        after.committed.docs == others.to_multiset().add(
            of_target.map_values(
                |doc: Doc| bookmark_doc(doc_pointer(doc)->Some_0, content),
            ).to_multiset(),
        ),
{
    let docs = before.committed.docs;
    let field = bookmark_schema().target_event_id;
    lemma_executed_step(before, Operation::EditWithTargetEventId(target, content), after);
    of_target.to_multiset_ensures();
    others.to_multiset_ensures();
    assert forall|doc: Doc| #[trigger] of_target.to_multiset().contains(doc) implies has_term(
        doc,
        field,
        target,
    ) by {
        assert(of_target.contains(doc));
    }
    assert forall|doc: Doc| #[trigger] others.to_multiset().contains(doc) implies !has_term(
        doc,
        field,
        target,
    ) by {
        assert(others.contains(doc));
    }
    assert(bookmarks_of(docs, target) =~= of_target.to_multiset());
    assert(docs_after_target_removal(docs, target) =~= others.to_multiset());
    lemma_renewed(of_target, content);
    assert(renewed_docs(of_target, content) =~= of_target.map_values(
        |doc: Doc| bookmark_doc(doc_pointer(doc)->Some_0, content),
    )) by {
        assert forall|i: int| 0 <= i < of_target.len() implies doc_pointer(#[trigger] of_target[i])
            == Some(ids_in(of_target[i])) by {
            assert(of_target.contains(of_target[i]));
            assert(of_target.to_multiset().contains(of_target[i]));
            assert(docs.contains(of_target[i]));
            let pointer = lemma_committed_doc(before.committed, of_target[i]);
        }
    }
}

} // verus!
