//! Facts about the steps that operations take, used where operations are executed.

use vstd::prelude::*;
use vstd::seq_lib::group_to_multiset_ensures;

use crate::bookmark::{valid_pointer, Content, Found, Pointer};
use crate::engine::{has_term, without_term, Doc};
use crate::lookup::lemma_bookmark_doc;
use crate::model::{
    add_step, after_removal, all_bookmarks, bookmark_doc, doc_pointer, edit_step, emptied, hit,
    is_staged, key_text, lists, matching, may_find, op_step, original_key, partial_step,
    pointers_of, removal_step, renewal_step, short, some_doc_of, target_key, without_hits,
    Committed, Key, Operation, Staging,
};

verus! {

/// A committed bookmark that is found by a key has that key.
pub proof fn lemma_found_key(committed: Committed, field: u32, text: Seq<char>, pointer: Pointer)
    requires
        all_bookmarks(committed.docs),
        field < 4,
        some_doc_of(matching(committed.docs, field, text), pointer),
    ensures
        key_text(pointer, field) == text,
        short(text),
        valid_pointer(pointer),
{
    let doc = choose|doc: Doc| #[trigger]
        matching(committed.docs, field, text).contains(doc) && doc_pointer(doc) == Some(pointer);
    assert(committed.docs.contains(doc));
    let (held, content) = choose|held: Pointer, content: Content|
        {
            &&& doc == #[trigger] bookmark_doc(held, content)
            &&& valid_pointer(held)
        };
    lemma_bookmark_doc(held, content);
    assert(has_term(doc, field, text));
}

/// Removing the same bookmarks twice is removing them once.
pub proof fn lemma_removal_twice(staging: Staging, key: Key, first: bool, second: bool)
    ensures
        after_removal(after_removal(staging, key, first), key, second) == after_removal(
            staging,
            key,
            first || second,
        ),
{
    let once = after_removal(staging, key, first);
    assert(without_term(once.docs, key.0, key.1) =~= once.docs);
    lemma_filter_twice(staging.pending, |pointer: Pointer| !hit(pointer, key));
    assert(without_hits(once.pending, key) =~= once.pending);
    assert(once.removed.insert(key) =~= staging.removed.insert(key));
    assert(after_removal(once, key, second) =~= after_removal(staging, key, first || second));
}

/// Filtering twice is filtering once.
proof fn lemma_filter_twice(pointers: Seq<Pointer>, keep: spec_fn(Pointer) -> bool)
    ensures
        pointers.filter(keep).filter(keep) == pointers.filter(keep),
    decreases pointers.len(),
{
    reveal(Seq::filter);
    if pointers.len() > 0 {
        lemma_filter_twice(pointers.drop_last(), keep);
        let rest = pointers.drop_last().filter(keep);
        if keep(pointers.last()) {
            assert(rest.push(pointers.last()).drop_last() =~= rest);
        }
    }
}

/// Two removals of the same bookmarks, one after the other, are one removal.
pub proof fn lemma_removal_steps(
    committed: Committed,
    before: Staging,
    key: Key,
    middle: Staging,
    after: Staging,
)
    requires
        removal_step(committed, before, key, middle),
        removal_step(committed, middle, key, after),
    ensures
        removal_step(committed, before, key, after),
{
    let first = choose|found: bool| #[trigger]
        may_find(committed, key, found) && middle == after_removal(before, key, found);
    let second = choose|found: bool| #[trigger]
        may_find(committed, key, found) && after == after_removal(middle, key, found);
    lemma_removal_twice(before, key, first, second);
    assert(may_find(committed, key, first || second));
}

/// A removal and an addition make an edit.
pub proof fn lemma_edit_step(
    committed: Committed,
    before: Staging,
    pointer: Pointer,
    content: Content,
    middle: Staging,
    after: Staging,
)
    requires
        edit_step(committed, before, pointer, content, middle, after),
    ensures
        op_step(committed, before, Operation::Edit(pointer, content), after),
{
    let operation = Operation::Edit(pointer, content);
    match operation {
        Operation::Edit(p, c) => {
            assert(edit_step(committed, before, p, c, middle, after));
        },
        _ => {},
    }
}

/// The renewal of the committed bookmarks makes an edit by target.
pub proof fn lemma_renewal_op(
    committed: Committed,
    before: Staging,
    target: Seq<char>,
    content: Content,
    results: Seq<Found>,
    after: Staging,
)
    requires
        renewal_step(committed, before, target, content, results, after),
    ensures
        op_step(committed, before, Operation::EditWithTargetEventId(target, content), after),
{
    let operation = Operation::EditWithTargetEventId(target, content);
    match operation {
        Operation::EditWithTargetEventId(t, c) => {
            assert(renewal_step(committed, before, t, c, results, after));
        },
        _ => {},
    }
}

/// Documents that are gone cannot be removed again.
proof fn lemma_emptied_twice(staging: Staging, key: Key)
    ensures
        emptied(emptied(staging, key), key) == emptied(staging, key),
{
    assert(without_term(without_term(staging.docs, key.0, key.1), key.0, key.1) =~= without_term(
        staging.docs,
        key.0,
        key.1,
    ));
}

/// An operation that failed midway twice is as one that failed midway once.
pub proof fn lemma_partial_twice(
    committed: Committed,
    before: Staging,
    operation: Operation,
    middle: Staging,
    after: Staging,
)
    requires
        partial_step(committed, before, operation, middle),
        partial_step(committed, middle, operation, after),
    ensures
        partial_step(committed, before, operation, after),
{
    match operation {
        Operation::Edit(pointer, content) => {
            let key = original_key(pointer.original_event_id);
            if middle != before && after != middle {
                lemma_removal_steps(committed, before, key, middle, after);
            }
        },
        Operation::EditWithTargetEventId(target, content) => {
            lemma_emptied_twice(before, target_key(target));
        },
        _ => {},
    }
}

/// An operation that succeeds after it failed midway does what it does when it succeeds at once.
pub proof fn lemma_retry(
    committed: Committed,
    before: Staging,
    operation: Operation,
    middle: Staging,
    after: Staging,
)
    requires
        partial_step(committed, before, operation, middle),
        op_step(committed, middle, operation, after),
    ensures
        op_step(committed, before, operation, after),
{
    if middle != before {
        match operation {
            Operation::Edit(pointer, content) => {
                let key = original_key(pointer.original_event_id);
                let removed = choose|removed: Staging| #[trigger]
                    edit_step(committed, middle, pointer, content, removed, after);
                assert(removal_step(committed, middle, key, removed));
                assert(add_step(committed, removed, pointer, content, after));
                lemma_removal_steps(committed, before, key, middle, removed);
                assert(edit_step(committed, before, pointer, content, removed, after));
            },
            Operation::EditWithTargetEventId(target, content) => {
                let key = target_key(target);
                lemma_emptied_twice(before, key);
                if exists|results: Seq<Found>| #[trigger]
                    renewal_step(committed, middle, target, content, results, after) {
                    let results = choose|results: Seq<Found>| #[trigger]
                        renewal_step(committed, middle, target, content, results, after);
                    if results.len() > 0 || is_staged(before.pending, key) {
                        assert(without_term(middle.docs, key.0, key.1) =~= without_term(
                            before.docs,
                            key.0,
                            key.1,
                        ));
                        assert(renewal_step(committed, before, target, content, results, after));
                    } else if committed.private {
                        lemma_lists_len(committed, key, results);
                    }
                }
            },
            _ => {},
        }
    }
}

/// A list of all documents is as long as there are documents.
pub proof fn lemma_lists_len(committed: Committed, key: Key, results: Seq<Found>)
    requires
        lists(matching(committed.docs, key.0, key.1), results),
    ensures
        matching(committed.docs, key.0, key.1).len() == results.len(),
{
    broadcast use group_to_multiset_ensures;

    let docs = choose|docs: Seq<Doc>| #[trigger]
        docs.to_multiset() == matching(committed.docs, key.0, key.1)
            && pointers_of(docs, results);
    assert(docs.len() == results.len());
}

} // verus!
