//! Builders for the bookmark index, in memory and on disk.

use std::path::PathBuf;

use vstd::multiset::Multiset;
use vstd::prelude::*;

use crate::engine::{create_index_in_ram, described, Doc};
use crate::error::OpenDirectoryError;
use crate::index::BookmarkIndex;
use crate::model::{Committed, IndexModel};
use crate::schema::{bookmark_fields, BookmarkSchema};

verus! {

#[verifier::external_type_specification]
#[verifier::external_body]
pub struct ExPathBuf(std::path::PathBuf);

/// A path followed by a name.
pub uninterp spec fn joined_path(base: PathBuf, name: Seq<char>) -> PathBuf;

/// `PathBuf::clone` gives the same path.
pub assume_specification[ <std::path::PathBuf as std::clone::Clone>::clone ](path: &PathBuf) -> (copy:
    PathBuf)
    ensures
        copy == *path,
;

/// Calls `Path::join`, whose result is a function of the path and the name.
#[verifier::external_body]
fn join_path(base: &PathBuf, name: &str) -> (path: PathBuf)
    ensures
        path == joined_path(*base, name@),
{
    base.join(name)
}

/// What a new bookmark index in memory holds: nothing, and nobody else knows of it.
pub open spec fn empty_index() -> IndexModel {
    IndexModel {
        committed: Committed { private: true, docs: Multiset::<Doc>::empty() },
        pending: Seq::empty(),
        removed: Set::empty(),
    }
}

/// Builder for a bookmark index.
pub struct BookmarkIndexBuilder {}

impl BookmarkIndexBuilder {
    /// Make an index on disk.
    pub fn new_on_disk(path: PathBuf) -> (builder: PhysicalBookmarkIndexBuilder)
        ensures
            builder.base() == path,
    {
        PhysicalBookmarkIndexBuilder::new(path)
    }

    /// Make an index in memory.
    pub fn new_in_memory() -> (builder: MemoryBookmarkIndexBuilder)
        ensures
            builder == (MemoryBookmarkIndexBuilder {  }),
    {
        MemoryBookmarkIndexBuilder::new()
    }
}

/// Incomplete builder for a bookmark index on disk.
pub struct PhysicalBookmarkIndexBuilder {
    path: PathBuf,
}

impl PhysicalBookmarkIndexBuilder {
    /// The directory under which the index will be.
    pub closed spec fn base(&self) -> PathBuf {
        self.path
    }

    /// Make an index under the given directory.
    pub fn new(path: PathBuf) -> (builder: PhysicalBookmarkIndexBuilder)
        ensures
            builder.base() == path,
    {
        PhysicalBookmarkIndexBuilder { path }
    }

    /// Make an unencrypted index.
    pub fn unencrypted(&self) -> (builder: UnencryptedPhysicalBookmarkIndexBuilder)
        ensures
            builder.base() == self.base(),
    {
        UnencryptedPhysicalBookmarkIndexBuilder { path: self.path.clone() }
    }

    /// Make an index encrypted with the given password.
    pub fn encrypted(&self, password: &str) -> (builder: EncryptedPhysicalBookmarkIndexBuilder)
        ensures
            builder.base() == self.base(),
            builder.secret() == password@,
    {
        EncryptedPhysicalBookmarkIndexBuilder {
            path: self.path.clone(),
            password: password.to_owned(),
        }
    }
}

/// Complete builder for an unencrypted bookmark index on disk.
pub struct UnencryptedPhysicalBookmarkIndexBuilder {
    path: PathBuf,
}

impl UnencryptedPhysicalBookmarkIndexBuilder {
    /// The directory under which the index will be.
    pub closed spec fn base(&self) -> PathBuf {
        self.path
    }

    /// The directory of the index.
    pub fn directory(&self) -> (path: PathBuf)
        ensures
            path == joined_path(self.base(), "bookmarks_unencrypted"@),
    {
        join_path(&self.path, "bookmarks_unencrypted")
    }

    /// What is done next to open the directory of the index.
    pub fn build_step(&self, state: DirectoryState, event: DirectoryEvent) -> (next: (
        DirectoryState,
        DirectoryAction,
    ))
        ensures
            next == next_action(
                joined_path(self.base(), "bookmarks_unencrypted"@),
                state,
                event,
            ),
    {
        open_directory_step(&self.directory(), state, event)
    }
}

/// Complete builder for an encrypted bookmark index on disk.
pub struct EncryptedPhysicalBookmarkIndexBuilder {
    path: PathBuf,
    password: String,
}

impl EncryptedPhysicalBookmarkIndexBuilder {
    /// The directory under which the index will be.
    pub closed spec fn base(&self) -> PathBuf {
        self.path
    }

    /// The directory of the index.
    pub fn directory(&self) -> (path: PathBuf)
        ensures
            path == joined_path(self.base(), "bookmarks_encrypted"@),
    {
        join_path(&self.path, "bookmarks_encrypted")
    }

    /// The password of the index.
    pub closed spec fn secret(&self) -> Seq<char> {
        self.password@
    }

    /// The password of the index.
    pub fn password(&self) -> (password: &str)
        ensures
            password@ == self.secret(),
    {
        self.password.as_str()
    }

    /// The password of the index, given away so that it can be wiped.
    pub fn into_password(self) -> (password: String)
        ensures
            password@ == self.secret(),
    {
        self.password
    }

    /// What is done next to open the directory of the index.
    pub fn build_step(&self, state: DirectoryState, event: DirectoryEvent) -> (next: (
        DirectoryState,
        DirectoryAction,
    ))
        ensures
            next == next_action(joined_path(self.base(), "bookmarks_encrypted"@), state, event),
    {
        open_directory_step(&self.directory(), state, event)
    }
}

/// Builder for a bookmark index in memory.
pub struct MemoryBookmarkIndexBuilder {}

impl MemoryBookmarkIndexBuilder {
    /// Make an index in memory.
    pub fn new() -> (builder: MemoryBookmarkIndexBuilder)
        ensures
            builder == (MemoryBookmarkIndexBuilder {  }),
    {
        MemoryBookmarkIndexBuilder {  }
    }

    /// Build the index.
    pub fn build(&self) -> (index: BookmarkIndex)
        ensures
            index.wf(),
            index@ == empty_index(),
    {
        let schema = BookmarkSchema::new();
        assert(described(bookmark_fields()));
        let index = create_index_in_ram(schema.as_tantivy_schema());
        BookmarkIndex::new_with(index, schema)
    }
}

/// What is done to open the directory of an index.
#[derive(Debug)]
pub enum DirectoryAction {
    /// Open the directory.
    Open,
    /// Create the directory and those above it.
    Create,
    /// Go on with the directory that was opened.
    Use,
    /// Give up.
    Fail(OpenDirectoryError),
}

/// What came of it.
#[derive(Debug)]
pub enum DirectoryEvent {
    Opened,
    NotOpened(OpenDirectoryError),
    Created,
    /// The directory could not be created, for the reason given.
    NotCreated(String),
}

/// How far the opening of a directory has come.
#[derive(Debug, Clone, Copy, PartialEq, Eq, Structural)]
pub enum DirectoryState {
    /// It was not created yet.
    First,
    /// It was created.
    Second,
}

/// What is done next: a directory that does not exist is created, and opened once more. The error
/// where it cannot be created names it.
pub open spec fn next_action(directory: PathBuf, state: DirectoryState, event: DirectoryEvent) -> (
    DirectoryState,
    DirectoryAction,
) {
    match event {
        DirectoryEvent::Opened => (state, DirectoryAction::Use),
        DirectoryEvent::NotOpened(error) => if state is First && error is DoesNotExist {
            (state, DirectoryAction::Create)
        } else {
            (state, DirectoryAction::Fail(error))
        },
        DirectoryEvent::Created => (DirectoryState::Second, DirectoryAction::Open),
        DirectoryEvent::NotCreated(reason) => (
            state,
            DirectoryAction::Fail(
                OpenDirectoryError::IoError { io_error: reason, directory_path: directory },
            ),
        ),
    }
}

/// What is done next about the directory of an index.
pub fn open_directory_step(
    directory: &PathBuf,
    state: DirectoryState,
    event: DirectoryEvent,
) -> (next: (DirectoryState, DirectoryAction))
    ensures
        next == next_action(*directory, state, event),
{
    match event {
        DirectoryEvent::Opened => (state, DirectoryAction::Use),
        DirectoryEvent::NotOpened(error) => match (state, error) {
            (DirectoryState::First, OpenDirectoryError::DoesNotExist(_)) => (
                state,
                DirectoryAction::Create,
            ),
            (_, error) => (state, DirectoryAction::Fail(error)),
        },
        DirectoryEvent::Created => (DirectoryState::Second, DirectoryAction::Open),
        DirectoryEvent::NotCreated(reason) => (
            state,
            DirectoryAction::Fail(
                OpenDirectoryError::IoError {
                    io_error: reason,
                    directory_path: directory.clone(),
                },
            ),
        ),
    }
}

} // verus!
