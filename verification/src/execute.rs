//! The execution of operations on the bookmark index.

use vstd::prelude::*;

use crate::bookmark::{
    found_views, pointer_info, BookmarkPointerInfo, Content, Found, IndexedBookmark,
    IndexedBookmarkContent, Pointer,
};
use crate::engine::{has_term, Doc, MAX_RESULT_WINDOW};
use crate::error::{failure_policy, FailurePolicy, IndexError, IndexWriteError};
use crate::ids::EventId;
use crate::index::{
    all_fit, counted, lemma_counted, looked_up, looked_up_all, may_not_look_up, same_commit,
    staged_as, staging_of, BookmarkIndex, BookmarkIndexWriter,
};
use crate::model::{
    add_step, after_add, after_removal, after_renewal, edit_step, emptied, is_staged, lists,
    matching, may_find, may_list, may_start, op_step, op_steps, original_key, partial_step,
    removal_step, renewals, some_doc_of, target_key, Committed, IndexModel, Key, Operation, Staging,
};
use crate::operation::BookmarkIndexOperation;
use crate::schema::{bookmark_schema, texts_fit};
use crate::steps::{
    lemma_edit_step, lemma_found_key, lemma_lists_len, lemma_partial_twice, lemma_renewal_op,
    lemma_retry,
};

verus! {

/// How often a failed operation is tried again.
pub const RETRIES: usize = 5;

/// Whether one of the bookmarks that an edit by a key renews, given those that are committed, does not
/// fit a document.
pub open spec fn unfit_renewals(
    committed: Committed,
    staging: Staging,
    key: Key,
    results: Seq<Found>,
    content: Content,
) -> bool {
    &&& committed.private ==> lists(matching(committed.docs, key.0, key.1), results)
    &&& !all_fit(renewals(staging.pending, staging.removed, key, results), content)
}

/// Whether what an operation adds does not fit a document.
pub open spec fn unfit(committed: Committed, staging: Staging, operation: Operation) -> bool {
    match operation {
        Operation::Add(pointer, content) | Operation::Edit(pointer, content) => !texts_fit(
            pointer,
            content,
        ),
        Operation::EditWithTargetEventId(target, content) => exists|results: Seq<Found>| #[trigger]
            unfit_renewals(committed, staging, target_key(target), results, content),
        _ => false,
    }
}

/// Whether an operation may fail in the given way: the engine may fail, or, where something is added,
/// it may not fit. Doing nothing does not fail.
pub open spec fn may_fail(
    committed: Committed,
    staging: Staging,
    operation: Operation,
    error: IndexError,
) -> bool {
    &&& !(operation is Noop)
    &&& {
        ||| error is TantivyError
        ||| error is IdParsing && !committed.private
        ||| error is IO && (committed.private ==> MAX_RESULT_WINDOW <= committed.docs.len())
        ||| {
            &&& error == IndexError::IndexWriteError(IndexWriteError::TextTooLong)
            &&& unfit(committed, staging, operation)
        }
    }
}

/// Where one of the bookmarks to renew does not fit, what the operation adds does not.
proof fn lemma_unfit(
    committed: Committed,
    staging: Staging,
    target: Seq<char>,
    results: Seq<Found>,
    content: Content,
)
    requires
        unfit_renewals(committed, staging, target_key(target), results, content),
    ensures
        unfit(committed, staging, Operation::EditWithTargetEventId(target, content)),
{
    let operation = Operation::EditWithTargetEventId(target, content);
    match operation {
        Operation::EditWithTargetEventId(t, c) => {
            assert(unfit_renewals(committed, staging, target_key(t), results, c));
        },
        _ => {},
    }
}

/// A lookup fails in a way in which operations may fail.
proof fn lemma_lookup_fails(committed: Committed, key: Key, error: IndexError)
    requires
        may_not_look_up(committed, key, error),
    ensures
        forall|staging: Staging, operation: Operation|
            !(operation is Noop) ==> #[trigger] may_fail(committed, staging, operation, error),
{
    let pred = |doc: Doc| has_term(doc, key.0, key.1);
    let docs = committed.docs;
    assert(docs =~= docs.filter(pred).add(docs.filter(|doc: Doc| !pred(doc))));
    assert(matching(docs, key.0, key.1).len() <= docs.len());
}

/// What is done next about a failed operation.
#[derive(Debug, Clone, Copy, PartialEq, Eq, Structural)]
pub enum NextTry {
    /// Try the operation again.
    Again,
    /// Report the failure.
    Fail,
    /// Go on as if the operation had succeeded.
    GoOn,
}

/// What is done next about an operation that failed, after it was tried again a number of times.
pub open spec fn next_try(num_tries: usize, retries: usize, policy: FailurePolicy) -> NextTry {
    if num_tries == retries {
        NextTry::Fail
    } else {
        match policy {
            FailurePolicy::Retry => NextTry::Again,
            FailurePolicy::Bubble => NextTry::Fail,
            FailurePolicy::Ignore => NextTry::GoOn,
        }
    }
}

/// What is done next about an operation that failed, after it was tried again a number of times.
pub fn decide_next_try(num_tries: usize, retries: usize, error: &IndexError) -> (next: NextTry)
    ensures
        next == next_try(num_tries, retries, failure_policy(*error)),
{
    if num_tries == retries {
        NextTry::Fail
    } else {
        match error.policy() {
            FailurePolicy::Retry => NextTry::Again,
            FailurePolicy::Bubble => NextTry::Fail,
            FailurePolicy::Ignore => NextTry::GoOn,
        }
    }
}

/// The bookmark that a lookup brought first. A failed lookup brought none.
pub open spec fn first_found(lookup: Result<Vec<IndexedBookmark>, IndexError>) -> Option<
    BookmarkPointerInfo,
> {
    match lookup {
        Ok(results) => if results@.len() > 0 {
            Some(pointer_info(results@[0]))
        } else {
            None
        },
        Err(_) => None,
    }
}

/// The bookmark that a lookup brought first. A failed lookup brought none.
pub fn first_pointer(lookup: &Result<Vec<IndexedBookmark>, IndexError>) -> (first: Option<
    BookmarkPointerInfo,
>)
    ensures
        first == first_found(*lookup),
{
    match lookup {
        Ok(results) => if results.len() > 0 {
            Some(results[0].pointer_info())
        } else {
            None
        },
        Err(_) => None,
    }
}

/// The number of bookmarks of an event that are looked up, at most, to tell whether there is one.
pub const MAX_BOOKMARKS_OF_EVENT: usize = 100;

/// Whether a lookup of the bookmarks of an event may tell of the given one: it is the first that the
/// lookup brought, and where the lookup did not fail there is one if and only if the event is
/// bookmarked.
pub open spec fn tells_of(
    index: BookmarkIndex,
    target: Seq<char>,
    lookup: Result<Vec<IndexedBookmark>, IndexError>,
    info: Option<BookmarkPointerInfo>,
) -> bool {
    let field = bookmark_schema().target_event_id;
    &&& looked_up(index, field, target, MAX_BOOKMARKS_OF_EVENT, lookup)
    &&& info == first_found(lookup)
    &&& lookup is Ok && index@.committed.private ==> (info is Some <==> matching(
        index@.committed.docs,
        field,
        target,
    ).len() > 0)
}

/// Whether an index may give the answer to the question what bookmark there is of an event: a lookup
/// told so, and a bookmark that is given is a committed one of the event.
pub open spec fn identifies(
    index: BookmarkIndex,
    target: Seq<char>,
    info: Option<BookmarkPointerInfo>,
) -> bool {
    &&& exists|lookup: Result<Vec<IndexedBookmark>, IndexError>| #[trigger]
        tells_of(index, target, lookup, info)
    &&& info matches Some(found) ==> index@.committed.private ==> {
        &&& found@.target_event_id == target
        &&& some_doc_of(
            matching(index@.committed.docs, bookmark_schema().target_event_id, target),
            found@,
        )
    }
}

impl BookmarkIndex {
    /// Adds a bookmark, unless it counts as indexed.
    pub fn add(
        &mut self,
        writer: &mut BookmarkIndexWriter,
        pointer_info: BookmarkPointerInfo,
        bookmark_content: IndexedBookmarkContent,
    ) -> (added: Result<(), IndexError>)
        requires
            old(self).wf(),
            old(writer).writes_to(old(self)),
        ensures
            final(self).wf(),
            final(writer).writes_to(final(self)),
            same_commit(*old(self), *final(self)),
            final(self).tries() == old(self).tries(),
            match added {
                Ok(_) => add_step(
                    old(self)@.committed,
                    staging_of(*old(self), *old(writer)),
                    pointer_info@,
                    bookmark_content@,
                    staging_of(*final(self), *final(writer)),
                ),
                Err(error) => {
                    &&& staging_of(*final(self), *final(writer)) == staging_of(
                        *old(self),
                        *old(writer),
                    )
                    &&& may_fail(
                        old(self)@.committed,
                        staging_of(*old(self), *old(writer)),
                        Operation::Add(pointer_info@, bookmark_content@),
                        error,
                    )
                },
            },
    {
        let lookup = self.find_all_by_event_id_field(
            self.schema().primary_key(),
            &pointer_info.event_id,
        );
        self.add_found(writer, &pointer_info, &bookmark_content, lookup)
    }

    /// Adds a bookmark, unless it counts as indexed, given what a lookup of all committed bookmarks
    /// with its id brought. Where the lookup failed nothing is added.
    pub fn add_found(
        &mut self,
        writer: &mut BookmarkIndexWriter,
        pointer_info: &BookmarkPointerInfo,
        bookmark_content: &IndexedBookmarkContent,
        lookup: Result<Vec<IndexedBookmark>, IndexError>,
    ) -> (added: Result<(), IndexError>)
        requires
            old(self).wf(),
            old(writer).writes_to(old(self)),
        ensures
            final(self).wf(),
            final(writer).writes_to(final(self)),
            same_commit(*old(self), *final(self)),
            final(self).tries() == old(self).tries(),
            match lookup {
                Ok(results) => {
                    let indexed = counted(
                        old(self)@,
                        found_views(results@),
                        pointer_info.event_id@,
                    );
                    &&& indexed ==> added is Ok
                    &&& match added {
                        Ok(_) => {
                            &&& staging_of(*final(self), *final(writer)) == after_add(
                                staging_of(*old(self), *old(writer)),
                                pointer_info@,
                                bookmark_content@,
                                indexed,
                            )
                            &&& !indexed ==> texts_fit(pointer_info@, bookmark_content@)
                        },
                        Err(error) => {
                            &&& staging_of(*final(self), *final(writer)) == staging_of(
                                *old(self),
                                *old(writer),
                            )
                            &&& if texts_fit(pointer_info@, bookmark_content@) {
                                error is TantivyError
                            } else {
                                error == IndexError::IndexWriteError(IndexWriteError::TextTooLong)
                            }
                        },
                    }
                },
                Err(error) => {
                    &&& added == Err::<(), IndexError>(error)
                    &&& staging_of(*final(self), *final(writer)) == staging_of(
                        *old(self),
                        *old(writer),
                    )
                },
            },
            looked_up_all(
                *old(self),
                (bookmark_schema().event_id, pointer_info.event_id@),
                lookup,
            ) ==> match added {
                Ok(_) => add_step(
                    old(self)@.committed,
                    staging_of(*old(self), *old(writer)),
                    pointer_info@,
                    bookmark_content@,
                    staging_of(*final(self), *final(writer)),
                ),
                Err(error) => may_fail(
                    old(self)@.committed,
                    staging_of(*old(self), *old(writer)),
                    Operation::Add(pointer_info@, bookmark_content@),
                    error,
                ),
            },
    {
        let ghost committed = self@.committed;
        let ghost before = staging_of(*self, *writer);
        let ghost key = (bookmark_schema().event_id, pointer_info.event_id@);
        let ghost told = looked_up_all(*self, key, lookup);
        match lookup {
            Ok(results) => {
                let indexed = self.is_counted(&results, &pointer_info.event_id);
                proof {
                    if told && committed.private {
                        lemma_counted(self@, found_views(results@), pointer_info.event_id@);
                        assert(before == staged_as(self@, writer@));
                    }
                    assert(told ==> may_list(committed, before, pointer_info@.event_id, indexed));
                }
                self.stage_add(writer, pointer_info, bookmark_content, indexed)
            },
            Err(error) => {
                proof {
                    if told {
                        lemma_lookup_fails(committed, key, error);
                    }
                }
                Err(error)
            },
        }
    }

    /// Removes all documents of the bookmark whose first version is the given event.
    pub fn remove(&mut self, writer: &mut BookmarkIndexWriter, original_event_id: &EventId) -> (
    removed: Result<(), IndexError>)
        requires
            old(self).wf(),
            old(writer).writes_to(old(self)),
        ensures
            final(self).wf(),
            final(writer).writes_to(final(self)),
            same_commit(*old(self), *final(self)),
            final(self).tries() == old(self).tries(),
            match removed {
                Ok(_) => removal_step(
                    old(self)@.committed,
                    staging_of(*old(self), *old(writer)),
                    original_key(original_event_id@),
                    staging_of(*final(self), *final(writer)),
                ),
                Err(error) => {
                    &&& staging_of(*final(self), *final(writer)) == staging_of(
                        *old(self),
                        *old(writer),
                    )
                    &&& may_fail(
                        old(self)@.committed,
                        staging_of(*old(self), *old(writer)),
                        Operation::Remove(original_event_id@),
                        error,
                    )
                },
            },
    {
        let ghost key = original_key(original_event_id@);
        match self.get_events_to_be_removed(original_event_id) {
            Ok(events) => {
                let found = events.len() > 0;
                proof {
                    assert(found_views(events@).len() == events@.len());
                    if self@.committed.private {
                        lemma_lists_len(self@.committed, key, found_views(events@));
                    }
                    assert(may_find(self@.committed, key, found));
                }
                let field: u32 = self.schema().deletion_key();
                self.stage_removal(writer, field, original_event_id, found);
                Ok(())
            },
            Err(error) => {
                proof {
                    lemma_lookup_fails(self@.committed, key, error);
                }
                Err(error)
            },
        }
    }

    /// The committed bookmarks of the given event.
    fn find_by_target(&self, target_event_id: &EventId) -> (results: Result<
        Vec<IndexedBookmark>,
        IndexError,
    >)
        requires
            self.wf(),
        ensures
            looked_up_all(*self, target_key(target_event_id@), results),
    {
        self.find_all_by_event_id_field(self.schema().target_event_id_key(), target_event_id)
    }

    /// Removes all documents of bookmarks of the given event, given what a lookup of the committed ones
    /// brought. Where the lookup failed nothing is removed.
    pub fn remove_target(
        &mut self,
        writer: &mut BookmarkIndexWriter,
        target_event_id: &EventId,
        lookup: Result<Vec<IndexedBookmark>, IndexError>,
    ) -> (removed: Result<(), IndexError>)
        requires
            old(self).wf(),
            old(writer).writes_to(old(self)),
        ensures
            final(self).wf(),
            final(writer).writes_to(final(self)),
            same_commit(*old(self), *final(self)),
            final(self).tries() == old(self).tries(),
            removed == match lookup {
                Ok(_) => Ok::<(), IndexError>(()),
                Err(error) => Err(error),
            },
            staging_of(*final(self), *final(writer)) == match lookup {
                Ok(events) => after_removal(
                    staging_of(*old(self), *old(writer)),
                    target_key(target_event_id@),
                    events@.len() > 0,
                ),
                Err(_) => staging_of(*old(self), *old(writer)),
            },
    {
        match lookup {
            Ok(events) => {
                let field: u32 = self.schema().target_event_id_key();
                self.stage_removal(writer, field, target_event_id, events.len() > 0);
                Ok(())
            },
            Err(error) => Err(error),
        }
    }

    /// Replaces all documents of bookmarks of the given event, given what a lookup of the committed
    /// ones brought. Where the lookup failed, or brought none and none was added since the last commit,
    /// nothing is replaced.
    pub fn edit_target(
        &mut self,
        writer: &mut BookmarkIndexWriter,
        target_event_id: &EventId,
        bookmark_content: &IndexedBookmarkContent,
        lookup: Result<Vec<IndexedBookmark>, IndexError>,
    ) -> (edited: Result<(), IndexError>)
        requires
            old(self).wf(),
            old(writer).writes_to(old(self)),
        ensures
            final(self).wf(),
            final(writer).writes_to(final(self)),
            same_commit(*old(self), *final(self)),
            final(self).tries() == old(self).tries(),
            match lookup {
                Ok(events) => if events@.len() > 0 || is_staged(
                    old(self)@.pending,
                    target_key(target_event_id@),
                ) {
                    renewal_outcome(
                        staging_of(*old(self), *old(writer)),
                        target_key(target_event_id@),
                        found_views(events@),
                        bookmark_content@,
                        edited,
                        staging_of(*final(self), *final(writer)),
                    )
                } else {
                    &&& edited is Ok
                    &&& staging_of(*final(self), *final(writer)) == staging_of(
                        *old(self),
                        *old(writer),
                    )
                },
                Err(error) => {
                    &&& edited == Err::<(), IndexError>(error)
                    &&& staging_of(*final(self), *final(writer)) == staging_of(
                        *old(self),
                        *old(writer),
                    )
                },
            },
    {
        match lookup {
            Ok(events) => {
                let field: u32 = self.schema().target_event_id_key();
                if events.len() > 0 || self.has_staged(field, target_event_id) {
                    self.stage_renewal(writer, field, target_event_id, &events, bookmark_content)
                } else {
                    Ok(())
                }
            },
            Err(error) => Err(error),
        }
    }

    /// Executes an operation once.
    pub fn execute_impl(
        &mut self,
        writer: &mut BookmarkIndexWriter,
        operation: &BookmarkIndexOperation,
    ) -> (executed: Result<(), IndexError>)
        requires
            old(self).wf(),
            old(writer).writes_to(old(self)),
        ensures
            final(self).wf(),
            final(writer).writes_to(final(self)),
            same_commit(*old(self), *final(self)),
            final(self).tries() == old(self).tries().push(executed),
            operation@ is Noop ==> executed is Ok,
            match executed {
                Ok(_) => op_step(
                    old(self)@.committed,
                    staging_of(*old(self), *old(writer)),
                    operation@,
                    staging_of(*final(self), *final(writer)),
                ),
                Err(error) => {
                    &&& partial_step(
                        old(self)@.committed,
                        staging_of(*old(self), *old(writer)),
                        operation@,
                        staging_of(*final(self), *final(writer)),
                    )
                    &&& may_fail(
                        old(self)@.committed,
                        staging_of(*old(self), *old(writer)),
                        operation@,
                        error,
                    )
                },
            },
    {
        let ghost committed = self@.committed;
        let ghost before = staging_of(*self, *writer);
        let executed = match operation {
            BookmarkIndexOperation::Add(pointer_event, bookmark_content) => {
                let info = BookmarkPointerInfo::of_event(pointer_event);
                let lookup = self.find_all_by_event_id_field(
                    self.schema().primary_key(),
                    &info.event_id,
                );
                assert(operation@ == Operation::Add(info@, bookmark_content@));
                let added = self.add_found(writer, &info, bookmark_content, lookup);
                assert(added is Ok ==> op_step(
                    committed,
                    before,
                    operation@,
                    staging_of(*self, *writer),
                ));
                added
            },
            BookmarkIndexOperation::Remove(event_id) => {
                let removed = self.remove(writer, event_id);
                assert(removed is Ok ==> op_step(
                    committed,
                    before,
                    operation@,
                    staging_of(*self, *writer),
                ));
                removed
            },
            BookmarkIndexOperation::RemoveWithTargetEventId(target_event_id) => {
                let ghost key = target_key(target_event_id@);
                let lookup = self.find_by_target(target_event_id);
                let ghost found = lookup matches Ok(ref events) && events@.len() > 0;
                proof {
                    lemma_target_lookup(*self, key, lookup);
                }
                let removed = self.remove_target(writer, target_event_id, lookup);
                proof {
                    if removed is Ok {
                        assert(may_find(committed, key, found));
                        assert(removal_step(committed, before, key, staging_of(*self, *writer)));
                    }
                }
                removed
            },
            BookmarkIndexOperation::Edit(info, bookmark_content) => {
                self.edit(writer, info, bookmark_content)
            },
            BookmarkIndexOperation::EditWithTargetEventId(target_event_id, bookmark_content) => {
                let ghost key = target_key(target_event_id@);
                let lookup = self.find_by_target(target_event_id);
                proof {
                    lemma_target_lookup(*self, key, lookup);
                }
                let ghost views = match lookup {
                    Ok(ref events) => found_views(events@),
                    Err(_) => Seq::empty(),
                };
                let edited = self.edit_target(writer, target_event_id, bookmark_content, lookup);
                proof {
                    let after = staging_of(*self, *writer);
                    if edited is Ok {
                        lemma_renewal_op(
                            committed,
                            before,
                            target_event_id@,
                            bookmark_content@,
                            views,
                            after,
                        );
                    } else {
                        if lookup is Ok && !all_fit(
                            renewals(before.pending, before.removed, key, views),
                            bookmark_content@,
                        ) {
                            lemma_unfit(
                                committed,
                                before,
                                target_event_id@,
                                views,
                                bookmark_content@,
                            );
                        }
                        assert(after == before || after == emptied(before, key));
                        assert(after == before || may_find(committed, key, true) || is_staged(
                            before.pending,
                            key,
                        ));
                        assert(partial_step(committed, before, operation@, after));
                        assert(may_fail(committed, before, operation@, edited->Err_0));
                    }
                }
                edited
            },
            BookmarkIndexOperation::Noop => Ok(()),
        };
        self.note_try(Ghost(executed));
        executed
    }

    /// Removes all versions of a bookmark and adds the new one.
    fn edit(
        &mut self,
        writer: &mut BookmarkIndexWriter,
        info: &BookmarkPointerInfo,
        bookmark_content: &IndexedBookmarkContent,
    ) -> (edited: Result<(), IndexError>)
        requires
            old(self).wf(),
            old(writer).writes_to(old(self)),
        ensures
            final(self).wf(),
            final(writer).writes_to(final(self)),
            same_commit(*old(self), *final(self)),
            final(self).tries() == old(self).tries(),
            match edited {
                Ok(_) => op_step(
                    old(self)@.committed,
                    staging_of(*old(self), *old(writer)),
                    Operation::Edit(info@, bookmark_content@),
                    staging_of(*final(self), *final(writer)),
                ),
                Err(error) => {
                    &&& partial_step(
                        old(self)@.committed,
                        staging_of(*old(self), *old(writer)),
                        Operation::Edit(info@, bookmark_content@),
                        staging_of(*final(self), *final(writer)),
                    )
                    &&& may_fail(
                        old(self)@.committed,
                        staging_of(*old(self), *old(writer)),
                        Operation::Edit(info@, bookmark_content@),
                        error,
                    )
                },
            },
    {
        let ghost committed = self@.committed;
        let ghost before = staging_of(*self, *writer);
        // Both lookups come first: where one fails nothing has changed.
        let lookup = self.find_all_by_event_id_field(self.schema().primary_key(), &info.event_id);
        let same_id = match lookup {
            Ok(results) => results,
            Err(error) => {
                proof {
                    lemma_lookup_fails(
                        committed,
                        (bookmark_schema().event_id, info.event_id@),
                        error,
                    );
                }
                return Err(error);
            },
        };
        match self.remove(writer, &info.original_event_id) {
            Ok(_) => {},
            Err(error) => return Err(error),
        }
        let ghost middle = staging_of(*self, *writer);
        let added = self.add_found(writer, info, bookmark_content, Ok(same_id));
        proof {
            if added is Ok {
                assert(edit_step(
                    committed,
                    before,
                    info@,
                    bookmark_content@,
                    middle,
                    staging_of(*self, *writer),
                ));
                lemma_edit_step(
                    committed,
                    before,
                    info@,
                    bookmark_content@,
                    middle,
                    staging_of(*self, *writer),
                );
            } else {
                assert(staging_of(*self, *writer) == middle);
            }
        }
        added
    }
}

/// Whether the renewal of bookmarks that were found may have the given outcome. It fails before
/// anything changes where one of them does not fit, and where the engine fails the documents are gone
/// and still to be renewed.
pub open spec fn renewal_outcome(
    before: Staging,
    key: Key,
    results: Seq<Found>,
    content: Content,
    renewed: Result<(), IndexError>,
    after: Staging,
) -> bool {
    match renewed {
        Ok(_) => after == after_renewal(before, key, results, content),
        Err(error) => {
            ||| {
                &&& error == IndexError::IndexWriteError(IndexWriteError::TextTooLong)
                &&& !all_fit(renewals(before.pending, before.removed, key, results), content)
                &&& after == before
            }
            ||| error is TantivyError && after == emptied(before, key)
        },
    }
}

/// What a lookup of the bookmarks of an event tells.
proof fn lemma_target_lookup(
    index: BookmarkIndex,
    key: Key,
    lookup: Result<Vec<IndexedBookmark>, IndexError>,
)
    requires
        looked_up_all(index, key, lookup),
    ensures
        lookup matches Ok(events) ==> {
            &&& may_find(index@.committed, key, events@.len() > 0)
            &&& found_views(events@).len() == events@.len()
        },
        lookup matches Err(error) ==> forall|staging: Staging, operation: Operation|
            !(operation is Noop) ==> #[trigger] may_fail(
                index@.committed,
                staging,
                operation,
                error,
            ),
{
    match lookup {
        Ok(events) => {
            if index@.committed.private {
                lemma_lists_len(index@.committed, key, found_views(events@));
            }
        },
        Err(error) => lemma_lookup_fails(index@.committed, key, error),
    }
}

/// Whether an operation is to be tried again after a try with the given outcome, before which it was
/// tried the given number of times.
pub open spec fn to_be_tried_again(
    outcome: Result<(), IndexError>,
    num_tries: int,
    retries: usize,
) -> bool {
    outcome matches Err(error) && next_try(num_tries as usize, retries, failure_policy(error)) is Again
}

/// Whether an operation ends in the given way after a try with the given outcome, before which it was
/// tried the given number of times.
pub open spec fn ends_after(
    outcome: Result<(), IndexError>,
    num_tries: int,
    retries: usize,
    executed: Result<(), IndexError>,
) -> bool {
    match outcome {
        Ok(_) => executed is Ok,
        Err(error) => match next_try(num_tries as usize, retries, failure_policy(error)) {
            NextTry::Again => false,
            NextTry::Fail => executed == outcome,
            NextTry::GoOn => executed is Ok,
        },
    }
}

/// Whether these are the outcomes of all tries at an operation that ended in the given way: after each
/// but the last it was to be tried again, and after the last it was not.
pub open spec fn tried(
    outcomes: Seq<Result<(), IndexError>>,
    retries: usize,
    executed: Result<(), IndexError>,
) -> bool {
    &&& 0 < outcomes.len() <= retries + 1
    &&& forall|i: int|
        0 <= i < outcomes.len() - 1 ==> to_be_tried_again(#[trigger] outcomes[i], i, retries)
    &&& ends_after(outcomes.last(), outcomes.len() - 1, retries, executed)
}

/// The outcomes of the tries that were made on an index between two states.
pub open spec fn tries_between(before: BookmarkIndex, after: BookmarkIndex) -> Seq<
    Result<(), IndexError>,
> {
    after.tries().skip(before.tries().len() as int)
}

/// Whether an operation was tried, between two states of an index, as often as it was to be.
pub open spec fn tried_as_needed(
    before: BookmarkIndex,
    after: BookmarkIndex,
    retries: usize,
    executed: Result<(), IndexError>,
) -> bool {
    &&& after.tries() == before.tries() + tries_between(before, after)
    &&& tried(tries_between(before, after), retries, executed)
}

/// Whether the tries at an operation that is executed on its own are as they should be. None is made
/// where there is no writer. An operation that was tried with success may still fail to be committed.
pub open spec fn tried_on_its_own(
    before: BookmarkIndex,
    after: BookmarkIndex,
    executed: Result<(), IndexError>,
) -> bool {
    ||| executed is Err && after.tries() == before.tries()
    ||| tried_as_needed(before, after, RETRIES, executed)
    ||| executed is Err && tried_as_needed(before, after, RETRIES, Ok(()))
}

/// Whether these are the outcomes of the tries at operations, one after the other, each of which was
/// tried as often as it was to be and ended with success.
pub open spec fn all_tried(groups: Seq<Seq<Result<(), IndexError>>>) -> bool {
    forall|i: int| 0 <= i < groups.len() ==> tried(#[trigger] groups[i], RETRIES, Ok(()))
}

/// Whether the tries at a number of operations that are executed in one go are as they should be: all
/// were tried, one after the other, until one failed.
pub open spec fn tried_in_one_go(
    before: BookmarkIndex,
    after: BookmarkIndex,
    count: int,
    executed: Result<(), IndexError>,
) -> bool {
    exists|groups: Seq<Seq<Result<(), IndexError>>>|
        {
            &&& #[trigger] all_tried(groups)
            &&& groups.len() <= count
            &&& {
                ||| after.tries() == before.tries() + groups.flatten() && (groups.len() == count
                    || executed is Err && groups.len() == 0)
                ||| {
                    &&& executed is Err
                    &&& groups.len() < count
                    &&& tried_after(before, after, groups, executed)
                }
            }
        }
}

/// Whether one more operation was tried after others, and ended in the given way.
pub open spec fn tried_after(
    before: BookmarkIndex,
    after: BookmarkIndex,
    groups: Seq<Seq<Result<(), IndexError>>>,
    executed: Result<(), IndexError>,
) -> bool {
    let made = before.tries().len() + groups.flatten().len();
    &&& after.tries() == before.tries() + groups.flatten() + after.tries().skip(made as int)
    &&& tried(after.tries().skip(made as int), RETRIES, executed)
}

impl BookmarkIndex {
    /// Executes an operation, and tries it again, as often as given, where it fails in a way that
    /// may pass.
    pub fn execute_with_retry(
        &mut self,
        writer: &mut BookmarkIndexWriter,
        operation: &BookmarkIndexOperation,
        retries: usize,
    ) -> (executed: Result<(), IndexError>)
        requires
            old(self).wf(),
            old(writer).writes_to(old(self)),
        ensures
            final(self).wf(),
            final(writer).writes_to(final(self)),
            same_commit(*old(self), *final(self)),
            tried_as_needed(*old(self), *final(self), retries, executed),
            operation@ is Noop ==> executed is Ok,
            match executed {
                Ok(_) => op_step(
                    old(self)@.committed,
                    staging_of(*old(self), *old(writer)),
                    operation@,
                    staging_of(*final(self), *final(writer)),
                ),
                Err(error) => {
                    &&& partial_step(
                        old(self)@.committed,
                        staging_of(*old(self), *old(writer)),
                        operation@,
                        staging_of(*final(self), *final(writer)),
                    )
                    &&& may_fail(
                        old(self)@.committed,
                        staging_of(*old(self), *old(writer)),
                        operation@,
                        error,
                    )
                },
            },
    {
        let ghost start = *self;
        let ghost committed = self@.committed;
        let ghost before = staging_of(*self, *writer);
        let ghost mut made: Seq<Result<(), IndexError>> = Seq::empty();
        assert(self.tries() =~= start.tries() + made);
        let mut num_tries: usize = 0;
        loop
            invariant
                self.wf(),
                writer.writes_to(self),
                start == *old(self),
                before == staging_of(*old(self), *old(writer)),
                committed == start@.committed,
                same_commit(start, *self),
                partial_step(committed, before, operation@, staging_of(*self, *writer)),
                num_tries <= retries,
                made.len() == num_tries,
                self.tries() == start.tries() + made,
                forall|i: int|
                    0 <= i < made.len() ==> to_be_tried_again(#[trigger] made[i], i, retries),
            decreases retries - num_tries,
        {
            let ghost middle = staging_of(*self, *writer);
            let executed = self.execute_impl(writer, operation);
            proof {
                let earlier = made;
                made = made.push(executed);
                assert(self.tries() =~= start.tries() + made);
                assert(tries_between(start, *self) =~= made);
                assert(made.last() == executed);
            }
            match executed {
                Ok(_) => {
                    proof {
                        lemma_retry(
                            committed,
                            before,
                            operation@,
                            middle,
                            staging_of(*self, *writer),
                        );
                    }
                    return Ok(());
                },
                Err(error) => {
                    proof {
                        let after = staging_of(*self, *writer);
                        lemma_partial_twice(committed, before, operation@, middle, after);
                        lemma_fails_alike(committed, before, operation@, middle, error);
                    }
                    match decide_next_try(num_tries, retries, &error) {
                        NextTry::Fail => return Err(error),
                        NextTry::Again => {
                            num_tries += 1;
                        },
                        NextTry::GoOn => {
                            // No operation fails in a way that is ignored.
                            assert(false);
                            return Ok(());
                        },
                    }
                },
            }
        }
    }

    /// Executes an operation and commits it. If it fails it is tried again, as far as that makes
    /// sense.
    ///
    /// Prefer `bulk_execute` for multiple operations.
    pub fn execute(&mut self, operation: BookmarkIndexOperation) -> (executed: Result<
        (),
        IndexError,
    >)
        requires
            old(self).wf(),
        ensures
            final(self).wf(),
            final(self).parser() == old(self).parser(),
            execute_outcome(old(self)@, operation@, executed, final(self)@),
            tried_on_its_own(*old(self), *final(self), executed),
    {
        let ghost model = self@;
        let mut writer = match self.get_writer() {
            Ok(writer) => writer,
            Err(error) => return Err(error),
        };
        let ghost start = staging_of(*self, writer);
        match self.execute_with_retry(&mut writer, &operation, RETRIES) {
            Ok(_) => {},
            Err(error) => return Err(error),
        }
        let ghost after = staging_of(*self, writer);
        let committed = self.commit_and_reload(&mut writer);
        proof {
            assert(op_step(model.committed, start, operation@, after));
            assert(may_start(model, start));
        }
        match committed {
            Ok(_) => Ok(()),
            Err(error) => Err(error),
        }
    }

    /// Executes operations, one after the other, and commits them all. If one fails it is tried
    /// again, as far as that makes sense.
    pub fn bulk_execute(&mut self, operations: Vec<BookmarkIndexOperation>) -> (executed: Result<
        (),
        IndexError,
    >)
        requires
            old(self).wf(),
        ensures
            final(self).wf(),
            final(self).parser() == old(self).parser(),
            bulk_outcome(old(self)@, operation_views(operations@), executed, final(self)@),
            tried_in_one_go(*old(self), *final(self), operations@.len() as int, executed),
    {
        let ghost model = self@;
        let ghost start = *self;
        let ghost views = operation_views(operations@);
        let mut writer = match self.get_writer() {
            Ok(writer) => writer,
            Err(error) => {
                proof {
                    lemma_none_tried(start, *self);
                }
                return Err(error);
            },
        };
        let ghost first = staging_of(*self, writer);
        let ghost mut path: Seq<Staging> = seq![first];
        let ghost mut groups: Seq<Seq<Result<(), IndexError>>> = Seq::empty();
        proof {
            lemma_none_tried(start, *self);
        }
        let mut i: usize = 0;
        while i < operations.len()
            invariant
                self.wf(),
                writer.writes_to(self),
                start == *old(self),
                model == start@,
                same_commit(start, *self),
                views == operation_views(operations@),
                i <= operations.len(),
                op_steps(model.committed, views.take(i as int), path),
                path[0] == first,
                may_start(model, first),
                path.last() == staging_of(*self, writer),
                groups.len() == i,
                all_tried(groups),
                self.tries() == start.tries() + groups.flatten(),
            decreases operations.len() - i,
        {
            let ghost before = staging_of(*self, writer);
            let ghost earlier = *self;
            assert(views[i as int] == operations@[i as int]@);
            match self.execute_with_retry(&mut writer, &operations[i], RETRIES) {
                Ok(_) => {},
                Err(error) => {
                    proof {
                        let staging = staging_of(*self, writer);
                        assert(op_steps(model.committed, views.take(i as int), path));
                        assert(partial_step(model.committed, path.last(), views[i as int], staging));
                        assert(self@ =~= (IndexModel {
                            committed: model.committed,
                            pending: staging.pending,
                            removed: staging.removed,
                        }));
                        assert(given_up_at_one(model, views, error, self@));
                        lemma_tried_after(start, earlier, *self, groups, Err(error));
                        assert(all_tried(groups));
                    }
                    return Err(error);
                },
            }
            proof {
                let after = staging_of(*self, writer);
                lemma_op_steps_push(model.committed, views, i as int, path, after);
                path = path.push(after);
                groups = lemma_one_more_tried(start, earlier, *self, groups);
            }
            i += 1;
        }
        assert(views.take(i as int) =~= views);
        let committed = self.commit_and_reload(&mut writer);
        proof {
            assert(all_tried(groups));
            if committed is Ok || self@.committed.private {
                assert(may_start(model, path[0]));
                assert(op_steps(model.committed, views, path));
                assert(executed_all(model, views, self@));
            }
        }
        match committed {
            Ok(_) => Ok(()),
            Err(error) => Err(error),
        }
    }

    /// Whether a committed bookmark of the given event was found.
    pub fn contains_bookmark(&self, target_event_id: &EventId) -> (found: bool)
        requires
            self.wf(),
        ensures
            exists|info: Option<BookmarkPointerInfo>| #[trigger]
                identifies(*self, target_event_id@, info) && found == (info is Some),
            exists|info: Option<BookmarkPointerInfo>| #[trigger]
                call_ensures(
                    BookmarkIndex::get_pointer_info_from_target_event,
                    (self, target_event_id),
                    info,
                ) && found == (info is Some),
            found && self@.committed.private ==> matching(
                self@.committed.docs,
                bookmark_schema().target_event_id,
                target_event_id@,
            ).len() > 0,
    {
        self.get_pointer_info_from_target_event(target_event_id).is_some()
    }

    /// Looks up, from an event, whether there is a bookmark of it, and returns what identifies the
    /// bookmark. Where the lookup fails there is none.
    pub fn get_pointer_info_from_target_event(&self, target_event_id: &EventId) -> (info: Option<
        BookmarkPointerInfo,
    >)
        requires
            self.wf(),
        ensures
            identifies(*self, target_event_id@, info),
            exists|lookup: Result<Vec<IndexedBookmark>, IndexError>| #[trigger]
                call_ensures(
                    BookmarkIndex::find_by_event_id_field,
                    (
                        self,
                        bookmark_schema().target_event_id,
                        target_event_id,
                        MAX_BOOKMARKS_OF_EVENT,
                    ),
                    lookup,
                ) && info == first_found(lookup),
    {
        let lookup = self.find_by_event_id_field(
            self.schema().target_event_id_key(),
            target_event_id,
            MAX_BOOKMARKS_OF_EVENT,
        );
        let first = first_pointer(&lookup);
        proof {
            if let Ok(ref results) = lookup {
                if results@.len() > 0 && self@.committed.private {
                    self.lemma_wf();
                    assert(found_views(results@)[0].pointer == first->Some_0@);
                    lemma_found_key(
                        self@.committed,
                        bookmark_schema().target_event_id,
                        target_event_id@,
                        first->Some_0@,
                    );
                }
            }
            assert(tells_of(*self, target_event_id@, lookup, first));
        }
        first
    }
}

/// Where nothing was tried, no tries were made.
proof fn lemma_none_tried(before: BookmarkIndex, after: BookmarkIndex)
    requires
        after.tries() == before.tries(),
    ensures
        all_tried(Seq::empty()),
        after.tries() == before.tries() + Seq::<Seq<Result<(), IndexError>>>::empty().flatten(),
{
    let none = Seq::<Seq<Result<(), IndexError>>>::empty();
    assert(none.flatten() =~= Seq::empty());
    assert(after.tries() =~= before.tries() + none.flatten());
}

/// An operation that ended after others was tried after them.
proof fn lemma_tried_after(
    before: BookmarkIndex,
    middle: BookmarkIndex,
    after: BookmarkIndex,
    groups: Seq<Seq<Result<(), IndexError>>>,
    executed: Result<(), IndexError>,
)
    requires
        middle.tries() == before.tries() + groups.flatten(),
        tried_as_needed(middle, after, RETRIES, executed),
    ensures
        tried_after(before, after, groups, executed),
{
}

/// One more operation that was tried with success.
proof fn lemma_one_more_tried(
    before: BookmarkIndex,
    middle: BookmarkIndex,
    after: BookmarkIndex,
    groups: Seq<Seq<Result<(), IndexError>>>,
) -> (more: Seq<Seq<Result<(), IndexError>>>)
    requires
        all_tried(groups),
        middle.tries() == before.tries() + groups.flatten(),
        tried_as_needed(middle, after, RETRIES, Ok(())),
    ensures
        more.len() == groups.len() + 1,
        all_tried(more),
        after.tries() == before.tries() + more.flatten(),
{
    let made = tries_between(middle, after);
    let more = groups.push(made);
    more.lemma_flatten_and_flatten_alt_are_equivalent();
    groups.lemma_flatten_and_flatten_alt_are_equivalent();
    assert(more.drop_last() =~= groups);
    assert(more.flatten() == groups.flatten() + made);
    assert(after.tries() =~= before.tries() + more.flatten());
    assert forall|i: int| 0 <= i < more.len() implies tried(#[trigger] more[i], RETRIES, Ok(())) by {
        if i < groups.len() {
            assert(more[i] == groups[i]);
        }
    }
    more
}

/// What operations are, as values of the model.
pub open spec fn operation_views(operations: Seq<BookmarkIndexOperation>) -> Seq<Operation> {
    operations.map_values(|operation: BookmarkIndexOperation| operation@)
}

/// Whether an operation on its own leads from one state of an index to the next.
pub open spec fn executed_one(before: IndexModel, operation: Operation, after: IndexModel) -> bool {
    exists|start: Staging, staging: Staging|
        {
            &&& #[trigger] op_step(before.committed, start, operation, staging)
            &&& may_start(before, start)
            &&& after.committed.docs == staging.docs
        }
}

/// Whether operations, executed in one go, lead from one state of an index to the next.
pub open spec fn executed_all(
    before: IndexModel,
    operations: Seq<Operation>,
    after: IndexModel,
) -> bool {
    exists|path: Seq<Staging>|
        {
            &&& #[trigger] op_steps(before.committed, operations, path)
            &&& may_start(before, path[0])
            &&& after.committed.docs == path.last().docs
        }
}

/// Whether an operation was given up: nothing is committed, and what counts as added and removed is
/// what its last try left.
pub open spec fn given_up(
    before: IndexModel,
    operation: Operation,
    error: IndexError,
    after: IndexModel,
) -> bool {
    exists|start: Staging, staging: Staging|
        {
            &&& #[trigger] partial_step(before.committed, start, operation, staging)
            &&& may_start(before, start)
            &&& may_fail(before.committed, start, operation, error)
            &&& after == (IndexModel {
                committed: before.committed,
                pending: staging.pending,
                removed: staging.removed,
            })
        }
}

/// Whether operations were given up at one of them, which failed in the given way.
pub open spec fn given_up_at_one(
    before: IndexModel,
    operations: Seq<Operation>,
    error: IndexError,
    after: IndexModel,
) -> bool {
    exists|i: int, path: Seq<Staging>, staging: Staging|
        {
            &&& 0 <= i < operations.len()
            &&& #[trigger] op_steps(before.committed, operations.take(i), path)
            &&& may_start(before, path[0])
            &&& #[trigger] partial_step(before.committed, path.last(), operations[i], staging)
            &&& may_fail(before.committed, path.last(), operations[i], error)
            &&& after == (IndexModel {
                committed: before.committed,
                pending: staging.pending,
                removed: staging.removed,
            })
        }
}

/// Whether the commit of an operation failed: what is committed is not known, and what the operation
/// added and removed still counts as such.
pub open spec fn not_committed(before: IndexModel, operation: Operation, after: IndexModel) -> bool {
    exists|start: Staging, staging: Staging|
        {
            &&& #[trigger] op_step(before.committed, start, operation, staging)
            &&& may_start(before, start)
            &&& !after.committed.private
            &&& after.pending == staging.pending
            &&& after.removed == staging.removed
        }
}

/// Whether the commit of operations failed, in the same way.
pub open spec fn none_committed(
    before: IndexModel,
    operations: Seq<Operation>,
    after: IndexModel,
) -> bool {
    exists|path: Seq<Staging>|
        {
            &&& #[trigger] op_steps(before.committed, operations, path)
            &&& may_start(before, path[0])
            &&& !after.committed.private
            &&& after.pending == path.last().pending
            &&& after.removed == path.last().removed
        }
}

/// Whether nothing counts as added or removed any more, as after a commit.
pub open spec fn settled(before: IndexModel, after: IndexModel) -> bool {
    &&& after.committed.private == before.committed.private
    &&& after.pending == Seq::<Pointer>::empty()
    &&& after.removed == Set::<Key>::empty()
}

/// Whether executing an operation may have the given outcome. An operation that succeeds is
/// committed. One that fails was given up, or the engine failed to commit it, or to show it once it
/// was committed.
pub open spec fn execute_outcome(
    before: IndexModel,
    operation: Operation,
    executed: Result<(), IndexError>,
    after: IndexModel,
) -> bool {
    match executed {
        Ok(_) => settled(before, after) && executed_one(before, operation, after),
        Err(error) => {
            ||| error is TantivyError && after == before
            ||| given_up(before, operation, error, after)
            ||| error is TantivyError && not_committed(before, operation, after)
            ||| error is TantivyError && settled(before, after) && executed_one(
                before,
                operation,
                after,
            )
        },
    }
}

/// Whether executing operations in one go may have the given outcome, in the same way.
pub open spec fn bulk_outcome(
    before: IndexModel,
    operations: Seq<Operation>,
    executed: Result<(), IndexError>,
    after: IndexModel,
) -> bool {
    match executed {
        Ok(_) => settled(before, after) && executed_all(before, operations, after),
        Err(error) => {
            ||| error is TantivyError && after == before
            ||| given_up_at_one(before, operations, error, after)
            ||| error is TantivyError && none_committed(before, operations, after)
            ||| error is TantivyError && settled(before, after) && executed_all(
                before,
                operations,
                after,
            )
        },
    }
}

/// An operation that failed midway fails in the same ways when it is tried again.
proof fn lemma_fails_alike(
    committed: Committed,
    before: Staging,
    operation: Operation,
    middle: Staging,
    error: IndexError,
)
    requires
        partial_step(committed, before, operation, middle),
        may_fail(committed, middle, operation, error),
    ensures
        may_fail(committed, before, operation, error),
{
    if let Operation::EditWithTargetEventId(target, content) = operation {
        if unfit(committed, middle, operation) {
            let results = choose|results: Seq<Found>| #[trigger]
                unfit_renewals(committed, middle, target_key(target), results, content);
            assert(unfit_renewals(committed, before, target_key(target), results, content));
        }
    }
}

/// One more operation after a list of operations.
proof fn lemma_op_steps_push(
    committed: Committed,
    operations: Seq<Operation>,
    i: int,
    path: Seq<Staging>,
    after: Staging,
)
    requires
        0 <= i < operations.len(),
        op_steps(committed, operations.take(i), path),
        op_step(committed, path.last(), operations[i], after),
    ensures
        op_steps(committed, operations.take(i + 1), path.push(after)),
{
    let more = operations.take(i + 1);
    let path_more = path.push(after);
    assert forall|k: int| 0 <= k < more.len() implies op_step(
        committed,
        path_more[k],
        #[trigger] more[k],
        path_more[k + 1],
    ) by {
        if k < i {
            assert(operations.take(i)[k] == more[k]);
        }
    }
}

} // verus!
