//! What holds of the library as a whole.

pub mod contents;
pub mod events;
pub mod global;
pub mod handling;
pub mod nesting;
pub mod queries;
pub mod rounds;
pub mod rooms;
pub mod search;
pub mod stores;
pub mod values;
