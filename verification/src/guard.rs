//! The place that holds the bookmark index, and creates it when it is first needed.

use std::path::PathBuf;

use vstd::pervasive::unreached;
use vstd::prelude::*;

use crate::bookmark::{BookmarkPointerInfo, IndexedBookmark, Pointer};
use crate::builder::{empty_index, BookmarkIndexBuilder};
use crate::error::IndexError;
use crate::execute::{
    bulk_outcome, execute_outcome, identifies, operation_views, tried_in_one_go, tried_on_its_own,
};
use crate::ids::{EventId, RoomId};
use crate::index::{page_fits, room_text, searched, BookmarkIndex};
use crate::model::{matching, some_doc_of, Committed};
use crate::operation::BookmarkIndexOperation;
use crate::schema::bookmark_schema;

verus! {

/// Where the index is stored.
#[derive(Debug)]
pub enum BookmarkIndexStoreKind {
    /// Unencrypted, in a directory of the file system.
    UnencryptedDirectory(PathBuf),
    /// Encrypted with a password, in a directory of the file system.
    EncryptedDirectory(PathBuf, String),
    /// In memory.
    InMemory,
}

impl Clone for BookmarkIndexStoreKind {
    fn clone(&self) -> (copy: BookmarkIndexStoreKind)
        ensures
            copy == *self,
    {
        match self {
            BookmarkIndexStoreKind::UnencryptedDirectory(path) => {
                BookmarkIndexStoreKind::UnencryptedDirectory(path.clone())
            },
            BookmarkIndexStoreKind::EncryptedDirectory(path, password) => {
                BookmarkIndexStoreKind::EncryptedDirectory(path.clone(), password.clone())
            },
            BookmarkIndexStoreKind::InMemory => BookmarkIndexStoreKind::InMemory,
        }
    }
}

/// The index, once it was created, and where it is stored.
pub struct BookmarkIndexGuard {
    index: Option<BookmarkIndex>,
    bookmark_index_store_kind: BookmarkIndexStoreKind,
}

/// Whether an index is one to start from, given the index at hand if there is one, where indexes are
/// stored, and what was opened there if it was necessary.
pub open spec fn starts_from(
    index: Option<BookmarkIndex>,
    kind: BookmarkIndexStoreKind,
    opened: Option<Result<BookmarkIndex, IndexError>>,
    start: BookmarkIndex,
) -> bool {
    match index {
        Some(present) => start == present,
        None => if kind is InMemory {
            start.wf() && start@ == empty_index()
        } else {
            opened == Some(Ok::<BookmarkIndex, IndexError>(start))
        },
    }
}

/// The error with which there is no index to start from, if that is so.
pub open spec fn start_error(
    index: Option<BookmarkIndex>,
    kind: BookmarkIndexStoreKind,
    opened: Option<Result<BookmarkIndex, IndexError>>,
) -> Option<IndexError> {
    if index is Some || kind is InMemory {
        None
    } else {
        match opened {
            Some(Err(error)) => Some(error),
            _ => None,
        }
    }
}

/// Whether what was opened can be started from.
pub open spec fn opened_if_needed(
    index: Option<BookmarkIndex>,
    kind: BookmarkIndexStoreKind,
    opened: Option<Result<BookmarkIndex, IndexError>>,
) -> bool {
    index is None && !(kind is InMemory) ==> {
        &&& opened is Some
        &&& opened->Some_0 matches Ok(found) ==> found.wf()
    }
}

impl BookmarkIndexGuard {
    /// A place without an index yet.
    pub fn new(bookmark_index_store_kind: BookmarkIndexStoreKind) -> (guard: BookmarkIndexGuard)
        ensures
            guard.wf(),
            guard.index() is None,
            guard.kind() == bookmark_index_store_kind,
    {
        BookmarkIndexGuard { index: None, bookmark_index_store_kind }
    }

    /// The index, once it was created.
    pub closed spec fn index(&self) -> Option<BookmarkIndex> {
        self.index
    }

    /// Where the index is stored.
    pub closed spec fn kind(&self) -> BookmarkIndexStoreKind {
        self.bookmark_index_store_kind
    }

    /// Whether the index, once it was created, is well formed.
    pub open spec fn wf(&self) -> bool {
        self.index() matches Some(index) ==> index.wf()
    }

    /// Where to open an index, if there is none yet and it is not stored in memory.
    pub fn directory_to_open(&self) -> (kind: Option<&BookmarkIndexStoreKind>)
        ensures
            kind == if self.index() is None && !(self.kind() is InMemory) {
                Some(&self.kind())
            } else {
                None
            },
    {
        match self.index {
            Some(_) => None,
            None => match &self.bookmark_index_store_kind {
                BookmarkIndexStoreKind::InMemory => None,
                kind => Some(kind),
            },
        }
    }

    /// A new index, where it is stored in memory, and otherwise what was opened.
    fn create_index(&self, opened: Option<Result<BookmarkIndex, IndexError>>) -> (created: Result<
        BookmarkIndex,
        IndexError,
    >)
        requires
            opened_if_needed(None, self.kind(), opened),
        ensures
            match created {
                Ok(index) => {
                    &&& index.wf()
                    &&& starts_from(None, self.kind(), opened, index)
                    &&& start_error(None, self.kind(), opened) is None
                },
                Err(error) => start_error(None, self.kind(), opened) == Some(error),
            },
    {
        match &self.bookmark_index_store_kind {
            BookmarkIndexStoreKind::InMemory => Ok(BookmarkIndexBuilder::new_in_memory().build()),
            _ => match opened {
                Some(result) => result,
                None => unreached(),
            },
        }
    }

    /// The index, which is created first if there is none yet.
    pub fn get_or_create_index(&mut self, opened: Option<Result<BookmarkIndex, IndexError>>) -> (
    index: Result<&mut BookmarkIndex, IndexError>)
        requires
            old(self).wf(),
            opened_if_needed(old(self).index(), old(self).kind(), opened),
        ensures
            final(self).kind() == old(self).kind(),
            match index {
                Ok(found) => {
                    &&& starts_from(old(self).index(), old(self).kind(), opened, *found)
                    &&& found.wf()
                    &&& final(self).index() == Some(*final(found))
                },
                Err(error) => {
                    &&& start_error(old(self).index(), old(self).kind(), opened) == Some(error)
                    &&& final(self).index() is None
                },
            },
    {
        if self.index.is_none() {
            match self.create_index(opened) {
                Ok(created) => {
                    self.index = Some(created);
                },
                Err(error) => return Err(error),
            }
        }
        match &mut self.index {
            Some(index) => Ok(index),
            None => unreached(),
        }
    }

    /// Executes an operation in the index, which is created first if there is none yet.
    ///
    /// Prefer `bulk_execute` for multiple operations.
    pub fn execute(
        &mut self,
        opened: Option<Result<BookmarkIndex, IndexError>>,
        operation: BookmarkIndexOperation,
    ) -> (executed: Result<(), IndexError>)
        requires
            old(self).wf(),
            opened_if_needed(old(self).index(), old(self).kind(), opened),
        ensures
            final(self).wf(),
            final(self).kind() == old(self).kind(),
            match start_error(old(self).index(), old(self).kind(), opened) {
                Some(error) => {
                    &&& executed == Err::<(), IndexError>(error)
                    &&& final(self).index() is None
                },
                None => exists|start: BookmarkIndex|
                    {
                        &&& #[trigger] starts_from(
                            old(self).index(),
                            old(self).kind(),
                            opened,
                            start,
                        )
                        &&& final(self).index() matches Some(index) && execute_outcome(
                            start@,
                            operation@,
                            executed,
                            index@,
                        ) && tried_on_its_own(start, index, executed)
                    },
            },
    {
        match self.get_or_create_index(opened) {
            Ok(index) => index.execute(operation),
            Err(error) => Err(error),
        }
    }

    /// Executes operations in the index, which is created first if there is none yet.
    pub fn bulk_execute(
        &mut self,
        opened: Option<Result<BookmarkIndex, IndexError>>,
        operations: Vec<BookmarkIndexOperation>,
    ) -> (executed: Result<(), IndexError>)
        requires
            old(self).wf(),
            opened_if_needed(old(self).index(), old(self).kind(), opened),
        ensures
            final(self).wf(),
            final(self).kind() == old(self).kind(),
            match start_error(old(self).index(), old(self).kind(), opened) {
                Some(error) => {
                    &&& executed == Err::<(), IndexError>(error)
                    &&& final(self).index() is None
                },
                None => exists|start: BookmarkIndex|
                    {
                        &&& #[trigger] starts_from(
                            old(self).index(),
                            old(self).kind(),
                            opened,
                            start,
                        )
                        &&& final(self).index() matches Some(index) && bulk_outcome(
                            start@,
                            operation_views(operations@),
                            executed,
                            index@,
                        ) && tried_in_one_go(start, index, operations@.len() as int, executed)
                    },
            },
    {
        match self.get_or_create_index(opened) {
            Ok(index) => index.bulk_execute(operations),
            Err(error) => Err(error),
        }
    }

    /// Searches the index, which is created first if there is none yet.
    pub fn search(
        &mut self,
        opened: Option<Result<BookmarkIndex, IndexError>>,
        query: &str,
        max_number_of_results: usize,
        pagination_offset: Option<usize>,
        room_id_filter: Option<&RoomId>,
    ) -> (results: Result<Vec<IndexedBookmark>, IndexError>)
        requires
            old(self).wf(),
            opened_if_needed(old(self).index(), old(self).kind(), opened),
            page_fits(max_number_of_results, pagination_offset),
        ensures
            final(self).wf(),
            final(self).kind() == old(self).kind(),
            match start_error(old(self).index(), old(self).kind(), opened) {
                Some(error) => {
                    &&& results == Err::<Vec<IndexedBookmark>, IndexError>(error)
                    &&& final(self).index() is None
                },
                None => exists|start: BookmarkIndex|
                    {
                        &&& #[trigger] starts_from(
                            old(self).index(),
                            old(self).kind(),
                            opened,
                            start,
                        )
                        &&& final(self).index() == Some(start)
                        &&& searched(
                            start,
                            query@,
                            max_number_of_results,
                            pagination_offset,
                            room_text(room_id_filter),
                            results,
                        )
                    },
            },
    {
        match self.get_or_create_index(opened) {
            Ok(index) => index.search(
                query,
                max_number_of_results,
                pagination_offset,
                room_id_filter,
            ),
            Err(error) => Err(error),
        }
    }

    /// Looks up, from an event, whether there is a bookmark of it, and returns what identifies the
    /// bookmark. The event should be the first version of an event that was edited. Never fails: where
    /// there is no index yet one is created for this lookup alone, and where that fails there is no
    /// bookmark.
    pub fn get_bookmark_id_for_event(
        &self,
        opened: Option<Result<BookmarkIndex, IndexError>>,
        original_target_event_id: &EventId,
    ) -> (info: Option<BookmarkPointerInfo>)
        requires
            self.wf(),
            opened_if_needed(self.index(), self.kind(), opened),
        ensures
            match start_error(self.index(), self.kind(), opened) {
                Some(_) => info is None,
                None => exists|start: BookmarkIndex|
                    {
                        &&& #[trigger] starts_from(self.index(), self.kind(), opened, start)
                        &&& identifies(start, original_target_event_id@, info)
                        &&& call_ensures(
                            BookmarkIndex::get_pointer_info_from_target_event,
                            (&start, original_target_event_id),
                            info,
                        )
                    },
            },
            self.index() is None && self.kind() is InMemory ==> info is None,
    {
        match &self.index {
            Some(index) => {
                assert(starts_from(self.index(), self.kind(), opened, *index));
                index.get_pointer_info_from_target_event(original_target_event_id)
            },
            None => match self.create_index(opened) {
                Ok(index) => {
                    assert(starts_from(self.index(), self.kind(), opened, index));
                    index.get_pointer_info_from_target_event(original_target_event_id)
                },
                Err(_) => None,
            },
        }
    }

    /// Whether an event is bookmarked, and if so the id of its bookmark.
    pub fn is_event_bookmarked(
        &self,
        opened: Option<Result<BookmarkIndex, IndexError>>,
        original_target_event_id: &EventId,
    ) -> (bookmark_id: Option<EventId>)
        requires
            self.wf(),
            opened_if_needed(self.index(), self.kind(), opened),
        ensures
            match start_error(self.index(), self.kind(), opened) {
                Some(_) => bookmark_id is None,
                None => exists|start: BookmarkIndex, info: Option<BookmarkPointerInfo>|
                    {
                        &&& #[trigger] starts_from(self.index(), self.kind(), opened, start)
                        &&& #[trigger] identifies(start, original_target_event_id@, info)
                        &&& match info {
                            Some(found) => bookmark_id matches Some(id) && id@
                                == found@.original_event_id,
                            None => bookmark_id is None,
                        }
                    },
            },
            exists|info: Option<BookmarkPointerInfo>|
                {
                    &&& #[trigger] call_ensures(
                        BookmarkIndexGuard::get_bookmark_id_for_event,
                        (self, opened, original_target_event_id),
                        info,
                    )
                    &&& match info {
                        Some(found) => bookmark_id matches Some(id) && id@
                            == found@.original_event_id,
                        None => bookmark_id is None,
                    }
                },
            self.index() is None && self.kind() is InMemory ==> bookmark_id is None,
            bookmark_id matches Some(id) ==> exists|start: BookmarkIndex|
                {
                    &&& #[trigger] starts_from(self.index(), self.kind(), opened, start)
                    &&& start@.committed.private ==> identified_by(
                        start@.committed,
                        original_target_event_id@,
                        id@,
                    )
                },
    {
        match self.get_bookmark_id_for_event(opened, original_target_event_id) {
            Some(info) => Some(info.bookmark_id()),
            None => None,
        }
    }
}

/// Whether there is a committed bookmark of the given event with the given id.
pub open spec fn identified_by(committed: Committed, target: Seq<char>, id: Seq<char>) -> bool {
    exists|pointer: Pointer|
        {
            &&& #[trigger] some_doc_of(
                matching(committed.docs, bookmark_schema().target_event_id, target),
                pointer,
            )
            &&& pointer.original_event_id == id
        }
}

} // verus!
