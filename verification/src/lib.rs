//! A verified index of bookmarks.
//!
//! A bookmark is an event of a dedicated Matrix room that points at an event of some other room.
//! The library keeps one full-text index over the bookmarked events of all rooms, derives the
//! operations on that index from room events, and pages through its search results.

pub mod bookmark;
pub mod builder;
pub mod engine;
pub mod error;
pub mod events;
pub mod execute;
pub mod global;
pub mod guard;
pub mod handling;
pub mod ids;
pub mod index;
pub mod laws;
pub mod lists;
pub mod lookup;
pub mod model;
pub mod nesting;
pub mod operation;
pub mod rooms;
pub mod schema;
pub mod search;
pub mod steps;

pub use bookmark::{BookmarkPointerInfo, IndexedBookmark, IndexedBookmarkContent};
pub use builder::BookmarkIndexBuilder;
pub use error::IndexError;
pub use ids::{EventId, MilliSecondsSinceUnixEpoch, RoomId, Score, UserId};
pub use index::{BookmarkIndex, BookmarkIndexWriter};
pub use operation::{
    derive_bookmark_operation_from_regular_index_operation, BookmarkIndexOperation,
    RoomIndexOperation,
};
