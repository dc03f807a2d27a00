//! What an index does for its users, and where it comes from.

use std::path::PathBuf;

use tantivy::{Index, TantivyDocument};
use vstd::multiset::Multiset;
use vstd::prelude::*;
use vstd::utf8::encode_utf8;

use crate::bookmark::{
    found_views, valid_pointer, BookmarkPointerInfo, Content, IndexedBookmark,
    IndexedBookmarkContent, Pointer,
};
use crate::builder::{
    empty_index, joined_path, open_directory_step, BookmarkIndexBuilder, DirectoryAction,
    DirectoryEvent, DirectoryState, EncryptedPhysicalBookmarkIndexBuilder,
    MemoryBookmarkIndexBuilder, PhysicalBookmarkIndexBuilder,
    UnencryptedPhysicalBookmarkIndexBuilder,
};
use crate::engine::{has_term, index_docs, index_is_private, Doc};
use crate::error::{failure_policy, IndexError, OpenDirectoryError};
use crate::execute::{
    all_tried, executed_all, executed_one, first_found, first_pointer, operation_views, tried,
    tried_after, tries_between, MAX_BOOKMARKS_OF_EVENT,
};
use crate::guard::{opened_if_needed, BookmarkIndexGuard, BookmarkIndexStoreKind};
use crate::handling::settled_operations;
use crate::ids::{EventId, RoomId, Score};
use crate::index::{read_bookmark, searched, BookmarkIndex, BookmarkIndexWriter};
use crate::laws::contents::law_operation_is_tried_as_needed;
use crate::laws::handling::{lemma_settled_operations, lemma_told_by_items};
use crate::lookup::lemma_bookmark_doc;
use crate::model::{
    doc_pointer, hit, is_pending, matching, original_key, short, some_doc_of, some_untouched,
    target_key, untouched, Committed, IndexModel, Key, Operation,
};
use crate::operation::BookmarkIndexOperation;
use crate::schema::{bookmark_schema, BookmarkSchema};

verus! {

// ---------------------------------------------------------------------------------------------
// An index
// ---------------------------------------------------------------------------------------------

/// An operation that is executed with success is committed, and nothing is left to be. A failure that is
/// not the engine's commits nothing.
pub proof fn law_index_executes_its_operation(
    index: &mut BookmarkIndex,
    operation: BookmarkIndexOperation,
    executed: Result<(), IndexError>,
)
    requires
        call_ensures(BookmarkIndex::execute, (index, operation), executed),
    ensures
        executed is Ok ==> {
            &&& executed_one(old(index)@, operation@, final(index)@)
            &&& final(index)@.pending.len() == 0
            &&& forall|key: Key| !final(index)@.removed.contains(key)
            &&& final(index)@.committed.private == old(index)@.committed.private
        },
        executed matches Err(error) && !(error is TantivyError) ==> final(index)@.committed
            == old(index)@.committed,
        final(index).parser() == old(index).parser(),
{
}

/// Whether an operation was tried as often as it should be: it is tried again if and only if it failed in
/// a way that may pass, up to five times.
pub open spec fn tried_enough(tries: Seq<Result<(), IndexError>>) -> bool {
    &&& 0 < tries.len() <= 6
    &&& forall|i: int|
        0 <= i < tries.len() - 1 ==> ((#[trigger] tries[i]) matches Err(error) && failure_policy(
            error,
        ) is Retry)
    &&& (tries[tries.len() - 1] matches Err(error) && failure_policy(error) is Retry) ==> tries.len()
        == 6
}

/// An operation that is executed is tried as often as it should be, unless the engine failed before the
/// first try. A failure of the last try is reported, unless it is to be ignored.
pub proof fn law_index_tries_six_times(
    index: &mut BookmarkIndex,
    operation: BookmarkIndexOperation,
    executed: Result<(), IndexError>,
    tries: Seq<Result<(), IndexError>>,
)
    requires
        call_ensures(BookmarkIndex::execute, (index, operation), executed),
        final(index).tries() == old(index).tries() + tries,
    ensures
        tries.len() > 0 ==> tried_enough(tries),
        executed is Ok ==> tries.len() > 0,
        tries.len() > 0 ==> ((tries[tries.len() - 1] matches Err(error) && !(failure_policy(error)
            is Ignore)) ==> executed is Err),
{
    assert(tries_between(*old(index), *final(index)) =~= tries);
    if tried(tries, 5, executed) {
        law_operation_is_tried_as_needed(tries, 5, executed);
    }
    if tried(tries, 5, Ok(())) {
        law_operation_is_tried_as_needed(tries, 5, Ok(()));
    }
    assert(final(index).tries() == old(index).tries() ==> tries.len() == 0);
}

/// Whether tries are those at operations that were executed one after the other, the last of which may
/// have failed.
pub open spec fn tried_in_turn(
    tries: Seq<Result<(), IndexError>>,
    done: Seq<Seq<Result<(), IndexError>>>,
    failed: Seq<Result<(), IndexError>>,
) -> bool {
    &&& tries == done.flatten() + failed
    &&& forall|i: int|
        0 <= i < done.len() ==> {
            &&& tried_enough(#[trigger] done[i])
            &&& done[i][done[i].len() - 1] matches Err(error) ==> failure_policy(error) is Ignore
        }
    &&& failed.len() > 0 ==> tried_enough(failed)
}

/// Operations that are executed in one go are tried one after the other, each as often as it should be.
/// All of them are where that succeeds, and otherwise none after the one that failed.
pub proof fn law_index_tries_all_operations(
    index: &mut BookmarkIndex,
    operations: Vec<BookmarkIndexOperation>,
    executed: Result<(), IndexError>,
)
    requires
        call_ensures(BookmarkIndex::bulk_execute, (index, operations), executed),
    ensures
        exists|
            tries: Seq<Result<(), IndexError>>,
            done: Seq<Seq<Result<(), IndexError>>>,
            failed: Seq<Result<(), IndexError>>,
        |
            {
                &&& #[trigger] tried_in_turn(tries, done, failed)
                &&& final(index).tries() == old(index).tries() + tries
                &&& done.len() <= operations@.len()
                &&& executed is Ok ==> done.len() == operations@.len() && failed.len() == 0
                &&& failed.len() > 0 ==> done.len() < operations@.len()
            },
{
    let before = *old(index);
    let after = *final(index);
    let count = operations@.len() as int;
    let groups = choose|groups: Seq<Seq<Result<(), IndexError>>>|
        {
            &&& #[trigger] all_tried(groups)
            &&& groups.len() <= count
            &&& {
                ||| after.tries() == before.tries() + groups.flatten() && (groups.len() == count
                    || executed is Err && groups.len() == 0)
                ||| {
                    &&& executed is Err
                    &&& groups.len() < count
                    &&& tried_after(before, after, groups, executed)
                }
            }
        };
    assert forall|i: int| 0 <= i < groups.len() implies tried_enough(#[trigger] groups[i]) && (
    groups[i][groups[i].len() - 1] matches Err(error) ==> failure_policy(error) is Ignore) by {
        assert(tried(groups[i], 5, Ok(())));
        law_operation_is_tried_as_needed(groups[i], 5, Ok(()));
    }
    let done = groups.flatten();
    if after.tries() == before.tries() + done && (groups.len() == count || executed is Err
        && groups.len() == 0) {
        let failed = Seq::<Result<(), IndexError>>::empty();
        assert(done + failed =~= done);
        assert(tried_in_turn(done, groups, failed));
    } else {
        let failed = after.tries().skip((before.tries().len() + done.len()) as int);
        law_operation_is_tried_as_needed(failed, 5, executed);
        assert(before.tries() + done + failed =~= before.tries() + (done + failed));
        assert(tried_in_turn(done + failed, groups, failed));
    }
}

/// Operations that are executed in one go with success are all committed, one after the other, and
/// nothing is left to be. A failure that is not the engine's commits none.
pub proof fn law_index_executes_all_operations(
    index: &mut BookmarkIndex,
    operations: Vec<BookmarkIndexOperation>,
    executed: Result<(), IndexError>,
)
    requires
        call_ensures(BookmarkIndex::bulk_execute, (index, operations), executed),
    ensures
        executed is Ok ==> {
            &&& executed_all(
                old(index)@,
                operations@.map_values(|operation: BookmarkIndexOperation| operation@),
                final(index)@,
            )
            &&& final(index)@.pending.len() == 0
            &&& forall|key: Key| !final(index)@.removed.contains(key)
            &&& final(index)@.committed.private == old(index)@.committed.private
            &&& final(index).tries().len() >= old(index).tries().len()
        },
        executed matches Err(error) && !(error is TantivyError) ==> final(index)@.committed
            == old(index)@.committed,
        final(index).parser() == old(index).parser(),
{
    assert(operation_views(operations@) =~= operations@.map_values(
        |operation: BookmarkIndexOperation| operation@,
    ));
}

/// An operation fails for a reason: the engine failed, or it holds what is no bookmark, or there are
/// more bookmarks than can be counted, or something is added that is too long. Doing nothing fails only
/// where the engine does.
pub proof fn law_failures_have_reasons(
    index: &mut BookmarkIndex,
    operation: BookmarkIndexOperation,
    error: IndexError,
)
    requires
        call_ensures(BookmarkIndex::execute, (index, operation), Err::<(), IndexError>(error)),
    ensures
        error is TantivyError || error is IdParsing || error is IO || error is IndexWriteError,
        error is IdParsing ==> !old(index)@.committed.private,
        error is IO && old(index)@.committed.private ==> old(index)@.committed.docs.len()
            >= usize::MAX / 64,
        operation is Noop ==> error is TantivyError,
        error matches IndexError::IndexWriteError(reason) ==> reason is TextTooLong && (operation@
            is Add || operation@ is Edit || operation@ is EditWithTargetEventId),
        error is IndexWriteError ==> (operation@ matches Operation::Add(pointer, content)
            ==> length_of(pointer, content) > 0xffff_0000),
        error is IndexWriteError ==> (operation@ matches Operation::Edit(pointer, content)
            ==> length_of(pointer, content) > 0xffff_0000),
{
}

/// The bytes of the texts of a bookmark.
pub open spec fn length_of(pointer: Pointer, content: Content) -> int {
    encode_utf8(pointer.event_id).len() + encode_utf8(pointer.original_event_id).len()
        + encode_utf8(pointer.target_event_id).len() + encode_utf8(pointer.target_room_id).len()
        + encode_utf8(content.sender).len() + match content.body {
        Some(body) => encode_utf8(body).len() as int,
        None => 0,
    }
}

/// A bookmark event counts as indexed if it was added since the last commit, or if one of the bookmarks
/// that are found for it has an id by which none was removed since.
pub proof fn law_counted_unless_removed(
    index: &BookmarkIndex,
    results: &Vec<IndexedBookmark>,
    event_id: &EventId,
    counted: bool,
    listed: bool,
)
    requires
        call_ensures(BookmarkIndex::is_counted, (index, results, event_id), counted),
        call_ensures(
            BookmarkIndex::is_listed,
            (index, &Ok::<Vec<IndexedBookmark>, IndexError>(*results), event_id),
            listed,
        ),
    ensures
        listed == counted,
        counted <==> {
            ||| exists|i: int|
                0 <= i < index@.pending.len() && (#[trigger] index@.pending[i]).event_id == event_id@
            ||| exists|i: int|
                0 <= i < results@.len() && not_removed(
                    index@.removed,
                    (#[trigger] results@[i])@.pointer,
                )
        },
{
    let model = index@;
    let found = found_views(results@);
    if exists|i: int|
        0 <= i < results@.len() && not_removed(model.removed, (#[trigger] results@[i])@.pointer) {
        let i = choose|i: int|
            0 <= i < results@.len() && not_removed(model.removed, (#[trigger] results@[i])@.pointer);
        assert(found[i].pointer == results@[i]@.pointer);
        assert(untouched(model.removed, found[i].pointer));
    }
    if exists|i: int| 0 <= i < found.len() && untouched(model.removed, (#[trigger] found[i]).pointer) {
        let i = choose|i: int|
            0 <= i < found.len() && untouched(model.removed, (#[trigger] found[i]).pointer);
        assert(not_removed(model.removed, results@[i]@.pointer));
    }
    if exists|i: int|
        0 <= i < model.pending.len() && (#[trigger] model.pending[i]).event_id == event_id@ {
        assert(is_pending(model.pending, event_id@));
    }
}

/// Whether none of the keys is one by which a bookmark is removed.
pub open spec fn not_removed(keys: Set<Key>, pointer: Pointer) -> bool {
    forall|key: Key| #[trigger] keys.contains(key) ==> !hit(pointer, key)
}

/// A bookmark has the id in each of its fields, and is removed by a key with that id, if the id is short
/// enough to be looked up.
pub proof fn law_bookmarks_are_removed_by_their_ids(pointer: Pointer, id: Seq<char>)
    ensures
        hit(pointer, (bookmark_schema().event_id, id)) <==> pointer.event_id == id && short(id),
        hit(pointer, (bookmark_schema().original_event_id, id)) <==> pointer.original_event_id == id
            && short(id),
        hit(pointer, (bookmark_schema().target_event_id, id)) <==> pointer.target_event_id == id
            && short(id),
        hit(pointer, (bookmark_schema().target_room_id, id)) <==> pointer.target_room_id == id
            && short(id),
        original_key(id) == (bookmark_schema().original_event_id, id),
        target_key(id) == (bookmark_schema().target_event_id, id),
{
}

/// An index holds what the engine has, and nothing is left to be committed. Its fields are those of
/// bookmarks.
pub proof fn law_index_holds_what_the_engine_has(
    engine: Index,
    schema: BookmarkSchema,
    index: BookmarkIndex,
    known: &BookmarkSchema,
    other: BookmarkIndex,
)
    requires
        call_ensures(BookmarkIndex::new_with, (engine, schema), index),
        call_ensures(BookmarkIndex::schema, (&other,), known),
    ensures
        index@.committed.docs == index_docs(engine),
        index@.committed.private == index_is_private(engine),
        index@.pending.len() == 0,
        forall|key: Key| !index@.removed.contains(key),
        known@ == bookmark_schema(),
{
}

/// What is committed is what the writer holds, and nothing is left to be. Where the engine fails to
/// commit it, all that was added and removed still counts as such.
pub proof fn law_commit_commits_what_is_held(
    index: &mut BookmarkIndex,
    writer: &mut BookmarkIndexWriter,
    stamp: Result<u64, IndexError>,
)
    requires
        call_ensures(BookmarkIndex::commit, (index, writer), stamp),
    ensures
        stamp is Ok ==> {
            &&& final(index)@.committed.docs == old(writer)@
            &&& final(index)@.committed.private == old(index)@.committed.private
            &&& final(index)@.pending.len() == 0
            &&& forall|key: Key| !final(index)@.removed.contains(key)
            &&& final(writer)@ == old(writer)@
        },
        stamp matches Err(error) ==> {
            &&& error is TantivyError
            &&& final(index)@.pending == old(index)@.pending
            &&& final(index)@.removed == old(index)@.removed
        },
{
}

/// A commit that is shown is a commit. Where the engine fails to show it, it is committed or it is not.
pub proof fn law_commit_is_shown(
    index: &mut BookmarkIndex,
    writer: &mut BookmarkIndexWriter,
    stamp: Result<u64, IndexError>,
)
    requires
        call_ensures(BookmarkIndex::commit_and_reload, (index, writer), stamp),
    ensures
        stamp is Ok ==> {
            &&& final(index)@.committed.docs == old(writer)@
            &&& final(index)@.committed.private == old(index)@.committed.private
            &&& final(index)@.pending.len() == 0
            &&& forall|key: Key| !final(index)@.removed.contains(key)
            &&& final(writer)@ == old(writer)@
        },
        stamp matches Err(error) ==> {
            &&& error is TantivyError
            &&& {
                ||| {
                    &&& final(index)@.pending == old(index)@.pending
                    &&& final(index)@.removed == old(index)@.removed
                }
                ||| {
                    &&& final(index)@.committed.docs == old(writer)@
                    &&& final(index)@.pending.len() == 0
                    &&& forall|key: Key| !final(index)@.removed.contains(key)
                }
            }
        },
{
}

/// The bookmark that a lookup found first is told of, by all its ids, and none only where it found
/// none or failed.
pub proof fn law_first_bookmark_is_told_of(
    results: Vec<IndexedBookmark>,
    error: IndexError,
    first: Option<BookmarkPointerInfo>,
    none: Option<BookmarkPointerInfo>,
)
    requires
        call_ensures(
            first_pointer,
            (&Ok::<Vec<IndexedBookmark>, IndexError>(results),),
            first,
        ),
        call_ensures(first_pointer, (&Err::<Vec<IndexedBookmark>, IndexError>(error),), none),
    ensures
        first is Some <==> results@.len() > 0,
        first matches Some(info) ==> {
            &&& info.event_id == results@[0].event_id
            &&& info.original_event_id == results@[0].original_event_id
            &&& info.target_event_id == results@[0].target_event_id
            &&& info.target_room_id == results@[0].target_room_id
        },
        none is None,
{
}

/// A bookmark that an index tells of is a committed one of the event.
pub proof fn law_bookmark_of_an_event_is_a_committed_one(
    index: BookmarkIndex,
    target: &EventId,
    info: Option<BookmarkPointerInfo>,
    contained: bool,
)
    requires
        index@.committed.private,
        call_ensures(
            BookmarkIndex::get_pointer_info_from_target_event,
            (&index, target),
            info,
        ),
        call_ensures(BookmarkIndex::contains_bookmark, (&index, target), contained),
    ensures
        info matches Some(found) ==> {
            &&& found.target_event_id@ == target@
            &&& some_doc_of(
                index@.committed.docs.filter(
                    |doc: Doc| has_term(doc, bookmark_schema().target_event_id, target@),
                ),
                found@,
            )
        },
        index@.committed.docs.filter(
            |doc: Doc| has_term(doc, bookmark_schema().target_event_id, target@),
        ).len() == 0 ==> info is None && !contained,
{
    let of_target = matching(index@.committed.docs, bookmark_schema().target_event_id, target@);
    if let Some(found) = info {
        let doc = choose|doc: Doc| #[trigger]
            of_target.contains(doc) && doc_pointer(doc) == Some(found@);
        assert(of_target.contains(doc));
        assert(of_target.remove(doc).insert(doc) =~= of_target);
        assert(of_target.len() > 0);
    }
}

/// As long as lookups in an index do not fail, it tells of a bookmark of an event if and only if it holds
/// one, and so it does at its place.
pub proof fn law_bookmarked_events_are_told_of(
    index: BookmarkIndex,
    guard: BookmarkIndexGuard,
    opened: Option<Result<BookmarkIndex, IndexError>>,
    target: &EventId,
    info: Option<BookmarkPointerInfo>,
    contained: bool,
    at_place: Option<BookmarkPointerInfo>,
    bookmark_id: Option<EventId>,
)
    requires
        index@.committed.private,
        guard.index() == Some(index),
        forall|lookup: Result<Vec<IndexedBookmark>, IndexError>| #[trigger]
            call_ensures(
                BookmarkIndex::find_by_event_id_field,
                (&index, bookmark_schema().target_event_id, target, MAX_BOOKMARKS_OF_EVENT),
                lookup,
            ) ==> lookup is Ok,
        call_ensures(
            BookmarkIndex::get_pointer_info_from_target_event,
            (&index, target),
            info,
        ),
        call_ensures(BookmarkIndex::contains_bookmark, (&index, target), contained),
        call_ensures(
            BookmarkIndexGuard::get_bookmark_id_for_event,
            (&guard, opened, target),
            at_place,
        ),
        call_ensures(
            BookmarkIndexGuard::is_event_bookmarked,
            (&guard, opened, target),
            bookmark_id,
        ),
    ensures
        ({
            let bookmarked = index@.committed.docs.filter(
                |doc: Doc| has_term(doc, bookmark_schema().target_event_id, target@),
            ).len() > 0;
            &&& info is Some <==> bookmarked
            &&& contained <==> bookmarked
            &&& at_place is Some <==> bookmarked
            &&& bookmark_id is Some <==> bookmarked
        }),
{
    let of_target = matching(index@.committed.docs, bookmark_schema().target_event_id, target@);
    assert(of_target == index@.committed.docs.filter(
        |doc: Doc| has_term(doc, bookmark_schema().target_event_id, target@),
    ));
    lemma_told_of(index, target, info);
    let inner = choose|inner: Option<BookmarkPointerInfo>| #[trigger]
        call_ensures(
            BookmarkIndex::get_pointer_info_from_target_event,
            (&index, target),
            inner,
        ) && contained == (inner is Some);
    lemma_told_of(index, target, inner);
    lemma_told_of(index, target, at_place);
    let at_once = choose|at_once: Option<BookmarkPointerInfo>|
        {
            &&& #[trigger] call_ensures(
                BookmarkIndexGuard::get_bookmark_id_for_event,
                (&guard, opened, target),
                at_once,
            )
            &&& match at_once {
                Some(found) => bookmark_id matches Some(id) && id@ == found@.original_event_id,
                None => bookmark_id is None,
            }
        };
    lemma_told_of(index, target, at_once);
}

/// As long as lookups do not fail, a bookmark of an event is told of if and only if there is one.
proof fn lemma_told_of(
    index: BookmarkIndex,
    target: &EventId,
    info: Option<BookmarkPointerInfo>,
)
    requires
        index@.committed.private,
        forall|lookup: Result<Vec<IndexedBookmark>, IndexError>| #[trigger]
            call_ensures(
                BookmarkIndex::find_by_event_id_field,
                (&index, bookmark_schema().target_event_id, target, MAX_BOOKMARKS_OF_EVENT),
                lookup,
            ) ==> lookup is Ok,
        call_ensures(
            BookmarkIndex::get_pointer_info_from_target_event,
            (&index, target),
            info,
        ),
    ensures
        info is Some <==> matching(
            index@.committed.docs,
            bookmark_schema().target_event_id,
            target@,
        ).len() > 0,
{
    let lookup = choose|lookup: Result<Vec<IndexedBookmark>, IndexError>| #[trigger]
        call_ensures(
            BookmarkIndex::find_by_event_id_field,
            (&index, bookmark_schema().target_event_id, target, MAX_BOOKMARKS_OF_EVENT),
            lookup,
        ) && info == first_found(lookup);
    assert(lookup is Ok);
}

/// As long as lookups in an index do not fail, a bookmark event counts as indexed if and only if it was
/// added since the last commit, or is committed and was not removed since.
pub proof fn law_indexed_events_are_told(index: BookmarkIndex, event_id: &EventId, indexed: bool)
    requires
        index@.committed.private,
        forall|lookup: Result<Vec<IndexedBookmark>, IndexError>| #[trigger]
            call_ensures(
                BookmarkIndex::find_all_by_event_id_field,
                (&index, bookmark_schema().event_id, event_id),
                lookup,
            ) ==> lookup is Ok,
        call_ensures(BookmarkIndex::contains, (&index, event_id), indexed),
    ensures
        indexed <==> {
            ||| exists|i: int|
                0 <= i < index@.pending.len() && (#[trigger] index@.pending[i]).event_id == event_id@
            ||| exists|doc: Doc|
                {
                    &&& #[trigger] index@.committed.docs.contains(doc)
                    &&& has_term(doc, bookmark_schema().event_id, event_id@)
                    &&& doc_pointer(doc) matches Some(pointer) && not_removed(
                        index@.removed,
                        pointer,
                    )
                }
        },
{
    let model = index@;
    let field = bookmark_schema().event_id;
    let with_id = matching(model.committed.docs, field, event_id@);
    if exists|i: int|
        0 <= i < model.pending.len() && (#[trigger] model.pending[i]).event_id == event_id@ {
        assert(is_pending(model.pending, event_id@));
    }
    if exists|doc: Doc|
        {
            &&& #[trigger] model.committed.docs.contains(doc)
            &&& has_term(doc, field, event_id@)
            &&& doc_pointer(doc) matches Some(pointer) && not_removed(model.removed, pointer)
        } {
        let doc = choose|doc: Doc|
            {
                &&& #[trigger] model.committed.docs.contains(doc)
                &&& has_term(doc, field, event_id@)
                &&& doc_pointer(doc) matches Some(pointer) && not_removed(model.removed, pointer)
            };
        assert(with_id.contains(doc));
        assert(untouched(model.removed, doc_pointer(doc)->Some_0));
        assert(some_untouched(with_id, model.removed));
    }
    if some_untouched(with_id, model.removed) {
        let doc = choose|doc: Doc| #[trigger]
            with_id.contains(doc) && doc_pointer(doc) is Some && untouched(
                model.removed,
                doc_pointer(doc)->Some_0,
            );
        assert(model.committed.docs.contains(doc));
        assert(not_removed(model.removed, doc_pointer(doc)->Some_0));
    }
}

/// A bookmark that was written is read back with the same ids.
pub proof fn law_written_bookmark_is_read_back(
    schema: &BookmarkSchema,
    info: BookmarkPointerInfo,
    content: IndexedBookmarkContent,
    document: TantivyDocument,
    score: Score,
    bookmark: Result<IndexedBookmark, IndexError>,
)
    requires
        schema@ == bookmark_schema(),
        valid_pointer(info@),
        call_ensures(
            BookmarkSchema::make_doc,
            (schema, &info, &content),
            Ok::<TantivyDocument, IndexError>(document),
        ),
        call_ensures(read_bookmark, (schema, &document, score), bookmark),
    ensures
        bookmark matches Ok(found) && {
            &&& found.event_id@ == info.event_id@
            &&& found.original_event_id@ == info.original_event_id@
            &&& found.target_event_id@ == info.target_event_id@
            &&& found.target_room_id@ == info.target_room_id@
            &&& found.score == score
        },
{
    lemma_bookmark_doc(info@, content@);
}

// ---------------------------------------------------------------------------------------------
// A place for an index
// ---------------------------------------------------------------------------------------------

/// What an index at a place starts with: what is there, or nothing at all in memory, or else what was
/// opened, unless that failed.
pub open spec fn at_first(
    index: Option<BookmarkIndex>,
    kind: BookmarkIndexStoreKind,
    opened: Option<Result<BookmarkIndex, IndexError>>,
) -> Result<IndexModel, IndexError> {
    match (index, opened) {
        (Some(present), _) => Ok(present@),
        (None, Some(Err(error))) if !(kind is InMemory) => Err(error),
        (None, Some(Ok(found))) if !(kind is InMemory) => Ok(found@),
        _ => Ok(
            IndexModel {
                committed: Committed { private: true, docs: Multiset::empty() },
                pending: Seq::empty(),
                removed: Set::empty(),
            },
        ),
    }
}

/// A new place has no index. A directory is opened for it if and only if it is not in memory and there
/// is none yet.
pub proof fn law_directory_is_opened_if_needed(
    kind: BookmarkIndexStoreKind,
    new: BookmarkIndexGuard,
    guard: BookmarkIndexGuard,
    directory: Option<&BookmarkIndexStoreKind>,
)
    requires
        call_ensures(BookmarkIndexGuard::new, (kind,), new),
        call_ensures(BookmarkIndexGuard::directory_to_open, (&guard,), directory),
    ensures
        new.index() is None,
        new.kind() == kind,
        directory is Some <==> guard.index() is None && !(guard.kind() is InMemory),
        directory matches Some(place) ==> *place == guard.kind(),
{
}

/// Something must have been opened, and it must be well formed if that succeeded, if and only if there is
/// no index yet and it is not in memory.
pub proof fn law_something_is_opened_if_needed(
    index: Option<BookmarkIndex>,
    kind: BookmarkIndexStoreKind,
    found: BookmarkIndex,
    error: IndexError,
)
    ensures
        index is Some || kind is InMemory ==> opened_if_needed(index, kind, None),
        index is None && !(kind is InMemory) ==> !opened_if_needed(index, kind, None),
        opened_if_needed(index, kind, Some(Err(error))),
        found.wf() ==> opened_if_needed(index, kind, Some(Ok(found))),
{
}

/// The index at a place is the one that is there, or a new one that stays there. What becomes of it is
/// what is there from then on.
pub proof fn law_place_gives_its_index(
    guard: &mut BookmarkIndexGuard,
    opened: Option<Result<BookmarkIndex, IndexError>>,
    index: Result<&mut BookmarkIndex, IndexError>,
)
    requires
        call_ensures(BookmarkIndexGuard::get_or_create_index, (guard, opened), index),
        old(guard).index() is Some || old(guard).kind() is InMemory || opened is Some,
    ensures
        final(guard).kind() == old(guard).kind(),
        match at_first(old(guard).index(), old(guard).kind(), opened) {
            Ok(first) => index matches Ok(found) && found@ == first && (old(guard).index()
                matches Some(present) ==> *found == present) && final(guard).index() == Some(
                *final(found),
            ),
            Err(error) => (index matches Err(reported) && reported == error) && final(guard).index()
                is None,
        },
{
}

/// An operation is executed on the index that is at its place, which stays there.
pub proof fn law_place_executes_its_operation(
    guard: &mut BookmarkIndexGuard,
    opened: Option<Result<BookmarkIndex, IndexError>>,
    operation: BookmarkIndexOperation,
    executed: Result<(), IndexError>,
)
    requires
        call_ensures(BookmarkIndexGuard::execute, (guard, opened, operation), executed)
            || call_ensures(
            BookmarkIndexGuard::handle_bookmark_event,
            (guard, opened, Some(operation)),
            executed,
        ),
        old(guard).index() is Some || old(guard).kind() is InMemory || opened is Some,
    ensures
        final(guard).kind() == old(guard).kind(),
        match at_first(old(guard).index(), old(guard).kind(), opened) {
            Ok(first) => {
                &&& final(guard).index() is Some
                &&& executed is Ok ==> executed_one(
                    first,
                    operation@,
                    (final(guard).index()->Some_0)@,
                )
                &&& (executed matches Err(error) && !(error is TantivyError)) ==> (
                final(guard).index()->Some_0)@.committed == first.committed
            },
            Err(error) => {
                &&& executed == Err::<(), IndexError>(error)
                &&& final(guard).index() is None
            },
        },
{
}

/// An event that leads to no operation changes nothing.
pub proof fn law_no_operation_changes_nothing(
    guard: &mut BookmarkIndexGuard,
    opened: Option<Result<BookmarkIndex, IndexError>>,
    handled: Result<(), IndexError>,
)
    requires
        call_ensures(
            BookmarkIndexGuard::handle_bookmark_event,
            (guard, opened, None::<BookmarkIndexOperation>),
            handled,
        ),
    ensures
        handled is Ok,
        final(guard).index() == old(guard).index(),
        final(guard).kind() == old(guard).kind(),
{
}

/// Operations are all executed on the index that is at its place, which stays there.
pub proof fn law_place_executes_all_operations(
    guard: &mut BookmarkIndexGuard,
    opened: Option<Result<BookmarkIndex, IndexError>>,
    operations: Vec<BookmarkIndexOperation>,
    executed: Result<(), IndexError>,
)
    requires
        call_ensures(BookmarkIndexGuard::bulk_execute, (guard, opened, operations), executed),
        old(guard).index() is Some || old(guard).kind() is InMemory || opened is Some,
    ensures
        final(guard).kind() == old(guard).kind(),
        match at_first(old(guard).index(), old(guard).kind(), opened) {
            Ok(first) => {
                &&& final(guard).index() is Some
                &&& executed is Ok ==> executed_all(
                    first,
                    operations@.map_values(|operation: BookmarkIndexOperation| operation@),
                    (final(guard).index()->Some_0)@,
                )
            },
            Err(error) => {
                &&& executed == Err::<(), IndexError>(error)
                &&& final(guard).index() is None
            },
        },
{
    assert(operation_views(operations@) =~= operations@.map_values(
        |operation: BookmarkIndexOperation| operation@,
    ));
}

/// Of the operations that events led to, each that is there is executed, one after the other.
pub proof fn law_place_handles_all_events(
    guard: &mut BookmarkIndexGuard,
    opened: Option<Result<BookmarkIndex, IndexError>>,
    operations: Vec<Option<BookmarkIndexOperation>>,
    handled: Result<(), IndexError>,
    there: Seq<BookmarkIndexOperation>,
)
    requires
        call_ensures(
            BookmarkIndexGuard::bulk_handle_bookmark_event,
            (guard, opened, operations),
            handled,
        ),
        old(guard).index() is Some || old(guard).kind() is InMemory || opened is Some,
        there.map_values(|operation: BookmarkIndexOperation| Some(operation)) == operations@.filter(
            |operation: Option<BookmarkIndexOperation>| operation is Some,
        ),
    ensures
        final(guard).kind() == old(guard).kind(),
        match at_first(old(guard).index(), old(guard).kind(), opened) {
            Ok(first) => {
                &&& final(guard).index() is Some
                &&& handled is Ok ==> executed_all(
                    first,
                    there.map_values(|operation: BookmarkIndexOperation| operation@),
                    (final(guard).index()->Some_0)@,
                )
            },
            Err(error) => {
                &&& handled == Err::<(), IndexError>(error)
                &&& final(guard).index() is None
            },
        },
{
    lemma_settled_operations(operations@);
    lemma_told_by_items(there, settled_operations(operations@));
    assert(operation_views(there) =~= there.map_values(
        |operation: BookmarkIndexOperation| operation@,
    ));
}

/// A search is one of the index that is at its place, which it does not change.
pub proof fn law_place_is_searched(
    guard: &mut BookmarkIndexGuard,
    opened: Option<Result<BookmarkIndex, IndexError>>,
    query: &str,
    max_number_of_results: usize,
    pagination_offset: Option<usize>,
    room_id: &RoomId,
    results: Result<Vec<IndexedBookmark>, IndexError>,
)
    requires
        call_ensures(
            BookmarkIndexGuard::search,
            (
                guard,
                opened,
                query,
                max_number_of_results,
                pagination_offset,
                Some(room_id),
            ),
            results,
        ),
        old(guard).index() is Some || old(guard).kind() is InMemory || opened is Some,
    ensures
        final(guard).kind() == old(guard).kind(),
        old(guard).index() is Some ==> final(guard).index() == old(guard).index(),
        match at_first(old(guard).index(), old(guard).kind(), opened) {
            Ok(first) => {
                &&& final(guard).index() matches Some(index) && index@ == first && searched(
                    index,
                    query@,
                    max_number_of_results,
                    pagination_offset,
                    Some(room_id@),
                    results,
                )
            },
            Err(error) => {
                &&& results == Err::<Vec<IndexedBookmark>, IndexError>(error)
                &&& final(guard).index() is None
            },
        },
{
}

/// A search without a room is one of all rooms.
pub proof fn law_place_is_searched_in_all_rooms(
    guard: &mut BookmarkIndexGuard,
    opened: Option<Result<BookmarkIndex, IndexError>>,
    query: &str,
    max_number_of_results: usize,
    pagination_offset: Option<usize>,
    results: Result<Vec<IndexedBookmark>, IndexError>,
)
    requires
        call_ensures(
            BookmarkIndexGuard::search,
            (
                guard,
                opened,
                query,
                max_number_of_results,
                pagination_offset,
                None::<&RoomId>,
            ),
            results,
        ),
        old(guard).index() is Some || old(guard).kind() is InMemory || opened is Some,
    ensures
        final(guard).kind() == old(guard).kind(),
        old(guard).index() is Some ==> final(guard).index() == old(guard).index(),
        match at_first(old(guard).index(), old(guard).kind(), opened) {
            Ok(first) => {
                &&& final(guard).index() matches Some(index) && index@ == first && searched(
                    index,
                    query@,
                    max_number_of_results,
                    pagination_offset,
                    None,
                    results,
                )
            },
            Err(error) => {
                &&& results == Err::<Vec<IndexedBookmark>, IndexError>(error)
                &&& final(guard).index() is None
            },
        },
{
}

/// The bookmark of an event that is told of at a place is one of those that are there. It goes by the
/// id of its first version.
pub proof fn law_place_tells_of_bookmarks_that_are_there(
    guard: BookmarkIndexGuard,
    opened: Option<Result<BookmarkIndex, IndexError>>,
    target: &EventId,
    info: Option<BookmarkPointerInfo>,
    bookmark_id: Option<EventId>,
)
    requires
        call_ensures(
            BookmarkIndexGuard::get_bookmark_id_for_event,
            (&guard, opened, target),
            info,
        ),
        call_ensures(
            BookmarkIndexGuard::is_event_bookmarked,
            (&guard, opened, target),
            bookmark_id,
        ),
        guard.index() is Some || guard.kind() is InMemory || opened is Some,
    ensures
        match at_first(guard.index(), guard.kind(), opened) {
            Ok(first) => first.committed.private ==> {
                &&& info matches Some(found) ==> found.target_event_id@ == target@ && some_doc_of(
                    matching(first.committed.docs, bookmark_schema().target_event_id, target@),
                    found@,
                )
                &&& bookmark_id matches Some(id) ==> exists|pointer: Pointer|
                    {
                        &&& #[trigger] some_doc_of(
                            matching(
                                first.committed.docs,
                                bookmark_schema().target_event_id,
                                target@,
                            ),
                            pointer,
                        )
                        &&& pointer.original_event_id == id@
                    }
            },
            Err(_) => info is None && bookmark_id is None,
        },
{
}

// ---------------------------------------------------------------------------------------------
// Where an index is stored
// ---------------------------------------------------------------------------------------------

/// Indexes are stored under the path that is given, those that are encrypted apart from those that are
/// not, with the password that is given.
pub proof fn law_indexes_are_stored_under_the_path(
    path: PathBuf,
    password: &str,
    on_disk: PhysicalBookmarkIndexBuilder,
    new: PhysicalBookmarkIndexBuilder,
    plain: UnencryptedPhysicalBookmarkIndexBuilder,
    encrypted: EncryptedPhysicalBookmarkIndexBuilder,
    plain_directory: PathBuf,
    encrypted_directory: PathBuf,
    kept: &str,
    taken: String,
)
    requires
        call_ensures(BookmarkIndexBuilder::new_on_disk, (path,), on_disk),
        call_ensures(PhysicalBookmarkIndexBuilder::new, (path,), new),
        call_ensures(PhysicalBookmarkIndexBuilder::unencrypted, (&on_disk,), plain),
        call_ensures(PhysicalBookmarkIndexBuilder::encrypted, (&on_disk, password), encrypted),
        call_ensures(
            UnencryptedPhysicalBookmarkIndexBuilder::directory,
            (&plain,),
            plain_directory,
        ),
        call_ensures(
            EncryptedPhysicalBookmarkIndexBuilder::directory,
            (&encrypted,),
            encrypted_directory,
        ),
        call_ensures(EncryptedPhysicalBookmarkIndexBuilder::password, (&encrypted,), kept),
        call_ensures(EncryptedPhysicalBookmarkIndexBuilder::into_password, (encrypted,), taken),
    ensures
        new.base() == path,
        on_disk.base() == path,
        plain_directory == joined_path(path, "bookmarks_unencrypted"@),
        encrypted_directory == joined_path(path, "bookmarks_encrypted"@),
        kept@ == password@,
        taken@ == password@,
{
}

/// A new index in memory holds nothing, and nothing is left to be committed.
pub proof fn law_index_in_memory_starts_empty(
    builder: MemoryBookmarkIndexBuilder,
    index: BookmarkIndex,
)
    requires
        call_ensures(MemoryBookmarkIndexBuilder::build, (&builder,), index),
    ensures
        index@.committed.private,
        index@.committed.docs.len() == 0,
        index@.pending.len() == 0,
        forall|key: Key| !index@.removed.contains(key),
        index@ == empty_index(),
{
}

/// A directory that was opened is used. One that does not exist is created and opened once more. Every
/// other failure is reported as it is, and so is a failure to create it, with its path.
pub proof fn law_directory_is_opened_or_created(
    directory: &PathBuf,
    state: DirectoryState,
    error: OpenDirectoryError,
    reason: String,
    opened: (DirectoryState, DirectoryAction),
    not_opened: (DirectoryState, DirectoryAction),
    created: (DirectoryState, DirectoryAction),
    not_created: (DirectoryState, DirectoryAction),
)
    requires
        call_ensures(open_directory_step, (directory, state, DirectoryEvent::Opened), opened),
        call_ensures(
            open_directory_step,
            (directory, state, DirectoryEvent::NotOpened(error)),
            not_opened,
        ),
        call_ensures(open_directory_step, (directory, state, DirectoryEvent::Created), created),
        call_ensures(
            open_directory_step,
            (directory, state, DirectoryEvent::NotCreated(reason)),
            not_created,
        ),
    ensures
        opened.1 is Use,
        state is First && error is DoesNotExist ==> not_opened.1 is Create,
        state is Second || !(error is DoesNotExist) ==> not_opened.1 == DirectoryAction::Fail(error),
        not_opened.0 == state,
        created.0 is Second,
        created.1 is Open,
        not_created.1 == DirectoryAction::Fail(
            OpenDirectoryError::IoError { io_error: reason, directory_path: *directory },
        ),
{
}

/// The directories of both kinds of index are opened in the same way.
pub proof fn law_directories_are_opened_alike(
    plain: UnencryptedPhysicalBookmarkIndexBuilder,
    encrypted: EncryptedPhysicalBookmarkIndexBuilder,
    plain_directory: PathBuf,
    encrypted_directory: PathBuf,
    state: DirectoryState,
    event: DirectoryEvent,
    of_plain: (DirectoryState, DirectoryAction),
    of_encrypted: (DirectoryState, DirectoryAction),
    plain_step: (DirectoryState, DirectoryAction),
    encrypted_step: (DirectoryState, DirectoryAction),
)
    requires
        call_ensures(
            UnencryptedPhysicalBookmarkIndexBuilder::directory,
            (&plain,),
            plain_directory,
        ),
        call_ensures(
            EncryptedPhysicalBookmarkIndexBuilder::directory,
            (&encrypted,),
            encrypted_directory,
        ),
        call_ensures(
            UnencryptedPhysicalBookmarkIndexBuilder::build_step,
            (&plain, state, event),
            of_plain,
        ),
        call_ensures(
            EncryptedPhysicalBookmarkIndexBuilder::build_step,
            (&encrypted, state, event),
            of_encrypted,
        ),
        call_ensures(open_directory_step, (&plain_directory, state, event), plain_step),
        call_ensures(open_directory_step, (&encrypted_directory, state, event), encrypted_step),
    ensures
        of_plain == plain_step,
        of_encrypted == encrypted_step,
{
}

} // verus!
