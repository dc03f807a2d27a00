//! Rooms, the client's set of rooms, and the dedicated room that holds the bookmarks.

use vstd::prelude::*;

use crate::bookmark::IndexedBookmark;
use crate::error::IndexError;
use crate::events::{BookmarkEventContent, PointerContentBlock};
use crate::ids::{EventId, RoomId};
use crate::index::{page_fits, searched, BookmarkIndex};

verus! {

/// A room that the client knows.
#[derive(Debug)]
pub struct Room {
    pub room_id: RoomId,
    /// Whether the client has joined the room.
    pub joined: bool,
    /// The name that the room goes by, if it is known.
    pub display_name: Option<String>,
}

impl Clone for Room {
    fn clone(&self) -> (copy: Room)
        ensures
            copy == *self,
    {
        let display_name = match &self.display_name {
            Some(name) => Some(name.clone()),
            None => None,
        };
        Room { room_id: self.room_id.clone(), joined: self.joined, display_name }
    }
}

/// The ids of rooms.
pub open spec fn room_ids(rooms: Seq<Room>) -> Seq<Seq<char>> {
    rooms.map_values(|room: Room| room.room_id@)
}

/// Whether no two rooms have the same id.
pub open spec fn distinct_rooms(rooms: Seq<Room>) -> bool {
    forall|i: int, j: int|
        0 <= i < j < rooms.len() ==> (#[trigger] rooms[i]).room_id@ != (#[trigger] rooms[j]).room_id@
}

impl Room {
    /// Searches the index for bookmarks of events of this room.
    pub fn search_room_bookmarks(
        &self,
        index: &BookmarkIndex,
        query: &str,
        max_number_of_results: usize,
        pagination_offset: Option<usize>,
    ) -> (results: Result<Vec<IndexedBookmark>, IndexError>)
        requires
            index.wf(),
            page_fits(max_number_of_results, pagination_offset),
        ensures
            searched(
                *index,
                query@,
                max_number_of_results,
                pagination_offset,
                Some(self.room_id@),
                results,
            ),
    {
        index.search(query, max_number_of_results, pagination_offset, Some(&self.room_id))
    }

    /// The content of the event that bookmarks an event of this room. Whether there is such an event
    /// is not checked.
    pub fn bookmark_event(&self, event_id: &EventId, sender_display_name: &str) -> (content:
        BookmarkEventContent)
        ensures
            content.pointer.room_id == self.room_id,
            content.pointer.event_id == *event_id,
            content.pointer.via@.len() == 0,
            content.sender_display_name@ == sender_display_name@,
            content.room_display_name@ == match self.display_name {
                Some(name) => name@,
                None => Seq::<char>::empty(),
            },
            content.relates_to is None,
    {
        let room_display_name = match &self.display_name {
            Some(name) => name.clone(),
            None => String::new(),
        };
        BookmarkEventContent {
            pointer: PointerContentBlock {
                room_id: self.room_id.clone(),
                event_id: event_id.clone(),
                via: Vec::new(),
            },
            sender_display_name: sender_display_name.to_owned(),
            room_display_name,
            relates_to: None,
        }
    }
}

/// The rooms that a client knows, none of them twice.
#[derive(Debug)]
pub struct Client {
    rooms: Vec<Room>,
}

impl View for Client {
    type V = Seq<Room>;

    closed spec fn view(&self) -> Seq<Room> {
        self.rooms@
    }
}

/// The first room with the given id.
pub open spec fn room_with_id(rooms: Seq<Room>, room_id: Seq<char>) -> Option<Room>
    decreases rooms.len(),
{
    if rooms.len() == 0 {
        None
    } else if rooms[0].room_id@ == room_id {
        Some(rooms[0])
    } else {
        room_with_id(rooms.skip(1), room_id)
    }
}

/// The rooms without those whose id occurred before.
pub open spec fn first_occurrences(rooms: Seq<Room>) -> Seq<Room>
    decreases rooms.len(),
{
    if rooms.len() == 0 {
        Seq::empty()
    } else {
        let before = first_occurrences(rooms.drop_last());
        if room_ids(before).contains(rooms.last().room_id@) {
            before
        } else {
            before.push(rooms.last())
        }
    }
}

/// The position of the room with the given id, if there is one.
fn find_room(rooms: &Vec<Room>, room_id: &RoomId) -> (position: Option<usize>)
    ensures
        match position {
            Some(i) => {
                &&& i < rooms@.len()
                &&& rooms@[i as int].room_id@ == room_id@
                &&& forall|k: int|
                    0 <= k < i ==> (#[trigger] rooms@[k]).room_id@ != room_id@
            },
            None => forall|k: int|
                0 <= k < rooms@.len() ==> (#[trigger] rooms@[k]).room_id@ != room_id@,
        },
{
    let mut i: usize = 0;
    while i < rooms.len()
        invariant
            i <= rooms@.len(),
            forall|k: int| 0 <= k < i ==> (#[trigger] rooms@[k]).room_id@ != room_id@,
        decreases rooms@.len() - i,
    {
        if rooms[i].room_id.same_as(room_id) {
            return Some(i);
        }
        i += 1;
    }
    None
}

/// The first room with an id is where a search from the front finds it.
proof fn lemma_room_with_id(rooms: Seq<Room>, room_id: Seq<char>, i: int)
    requires
        0 <= i <= rooms.len(),
        forall|k: int| 0 <= k < i ==> (#[trigger] rooms[k]).room_id@ != room_id,
        i < rooms.len() ==> rooms[i].room_id@ == room_id,
    ensures
        room_with_id(rooms, room_id) == if i < rooms.len() {
            Some(rooms[i])
        } else {
            None
        },
    decreases rooms.len(),
{
    if rooms.len() > 0 && i > 0 {
        let rest = rooms.skip(1);
        assert forall|k: int| 0 <= k < i - 1 implies (#[trigger] rest[k]).room_id@ != room_id by {
            assert(rest[k] == rooms[k + 1]);
        }
        lemma_room_with_id(rest, room_id, i - 1);
    }
}

impl Client {
    #[verifier::type_invariant]
    spec fn distinct(self) -> bool {
        distinct_rooms(self.rooms@)
    }

    /// A client that knows the given rooms. Of several with the same id the first counts.
    pub fn new(rooms: Vec<Room>) -> (client: Client)
        ensures
            client@ == first_occurrences(rooms@),
    {
        let mut kept: Vec<Room> = Vec::new();
        let mut i: usize = 0;
        assert(rooms@.take(0) =~= Seq::empty());
        while i < rooms.len()
            invariant
                i <= rooms@.len(),
                kept@ == first_occurrences(rooms@.take(i as int)),
                distinct_rooms(kept@),
            decreases rooms@.len() - i,
        {
            proof {
                assert(rooms@.take(i + 1).drop_last() =~= rooms@.take(i as int));
                assert(rooms@.take(i + 1).last() == rooms@[i as int]);
            }
            match find_room(&kept, &rooms[i].room_id) {
                Some(k) => {
                    assert(room_ids(kept@)[k as int] == rooms@[i as int].room_id@);
                },
                None => {
                    assert(!room_ids(kept@).contains(rooms@[i as int].room_id@));
                    kept.push(rooms[i].clone());
                },
            }
            i += 1;
        }
        assert(rooms@.take(i as int) =~= rooms@);
        Client { rooms: kept }
    }

    /// The room with the given id, if the client knows it.
    pub fn get_room(&self, room_id: &RoomId) -> (room: Option<Room>)
        ensures
            room == room_with_id(self@, room_id@),
    {
        match find_room(&self.rooms, room_id) {
            Some(i) => {
                proof {
                    lemma_room_with_id(self.rooms@, room_id@, i as int);
                }
                Some(self.rooms[i].clone())
            },
            None => {
                proof {
                    lemma_room_with_id(self.rooms@, room_id@, self.rooms@.len() as int);
                }
                None
            },
        }
    }

    /// The rooms that the client has joined.
    pub fn joined_rooms(&self) -> (rooms: Vec<Room>)
        ensures
            rooms@ == self@.filter(|room: Room| room.joined),
            distinct_rooms(rooms@),
    {
        proof {
            use_type_invariant(self);
        }
        let ghost is_joined = |room: Room| room.joined;
        let mut rooms: Vec<Room> = Vec::new();
        let mut i: usize = 0;
        assert(self.rooms@.take(0).filter(is_joined) =~= Seq::empty()) by {
            reveal(Seq::filter);
        }
        while i < self.rooms.len()
            invariant
                i <= self.rooms@.len(),
                is_joined == |room: Room| room.joined,
                rooms@ == self.rooms@.take(i as int).filter(is_joined),
                distinct_rooms(self.rooms@),
                distinct_rooms(rooms@),
                forall|k: int|
                    0 <= k < rooms@.len() ==> self.rooms@.take(i as int).contains(
                        #[trigger] rooms@[k],
                    ),
            decreases self.rooms@.len() - i,
        {
            proof {
                reveal(Seq::filter);
                let more = self.rooms@.take(i + 1);
                assert(more.drop_last() =~= self.rooms@.take(i as int));
                assert(more.last() == self.rooms@[i as int]);
                assert forall|k: int| 0 <= k < rooms@.len() implies more.contains(
                    #[trigger] rooms@[k],
                ) && rooms@[k].room_id@ != self.rooms@[i as int].room_id@ by {
                    let less = self.rooms@.take(i as int);
                    let j = choose|j: int| 0 <= j < less.len() && less[j] == rooms@[k];
                    assert(more[j] == rooms@[k]);
                    assert(self.rooms@[j] == rooms@[k]);
                }
                assert(more[i as int] == self.rooms@[i as int]);
            }
            if self.rooms[i].joined {
                rooms.push(self.rooms[i].clone());
            }
            i += 1;
        }
        assert(self.rooms@.take(i as int) =~= self.rooms@);
        rooms
    }

    /// The room that holds the bookmarks, given its id as the account data has it.
    pub fn get_bookmarks_room(&self, bookmarks_room_id: Option<&RoomId>) -> (room: Option<Room>)
        ensures
            room == match bookmarks_room_id {
                Some(room_id) => room_with_id(self@, room_id@),
                None => None,
            },
    {
        match bookmarks_room_id {
            Some(room_id) => self.get_room(room_id),
            None => None,
        }
    }
}

/// What is done to get at the room that holds the bookmarks.
#[derive(Debug)]
pub enum BookmarksRoomStep {
    /// Use this room.
    Use(Room),
    /// Create a room.
    Create,
    /// Do without.
    GiveUp,
}

/// Who can find a room.
#[derive(Debug, Clone, Copy, PartialEq, Eq, Structural)]
pub enum Visibility {
    Public,
    Private,
}

/// What a room is for.
#[derive(Debug, Clone, Copy, PartialEq, Eq, Structural)]
pub enum RoomType {
    Bookmarks,
}

/// A request to create a room.
#[derive(Debug)]
pub struct CreateRoomRequest {
    pub visibility: Visibility,
    pub name: String,
    pub room_type: RoomType,
}

/// What is done to create the room that holds the bookmarks.
#[derive(Debug)]
pub enum CreationStep {
    /// Create a room.
    Create(CreateRoomRequest),
    /// Note in the account data that this room holds the bookmarks.
    SetAccountData(RoomId),
    /// Encrypt the room.
    EnableEncryption(RoomId),
    /// The room is ready.
    Done(RoomId),
}

/// The first step: a private room named for what it is.
pub fn create_bookmarks_room() -> (step: CreationStep)
    ensures
        step matches CreationStep::Create(request) && {
            &&& request.visibility == Visibility::Private
            &&& request.name@ == "Bookmarks"@
            &&& request.room_type == RoomType::Bookmarks
        },
{
    CreationStep::Create(
        CreateRoomRequest {
            visibility: Visibility::Private,
            name: "Bookmarks".to_owned(),
            room_type: RoomType::Bookmarks,
        },
    )
}

/// What was done to create the room that holds the bookmarks.
#[derive(Debug, Clone, Copy, PartialEq, Eq, Structural)]
pub enum CreationEvent {
    /// The room was created.
    Created,
    /// It was noted in the account data.
    Noted,
    /// It was encrypted.
    Encrypted,
}

/// The step after one that succeeded, for the given room. The room is noted before it is encrypted,
/// and it is encrypted where the client can do so.
pub fn next_creation_step(event: CreationEvent, room_id: RoomId, encryption: bool) -> (next:
    CreationStep)
    ensures
        next == match event {
            CreationEvent::Created => CreationStep::SetAccountData(room_id),
            CreationEvent::Noted => if encryption {
                CreationStep::EnableEncryption(room_id)
            } else {
                CreationStep::Done(room_id)
            },
            CreationEvent::Encrypted => CreationStep::Done(room_id),
        },
{
    match event {
        CreationEvent::Created => CreationStep::SetAccountData(room_id),
        CreationEvent::Noted => if encryption {
            CreationStep::EnableEncryption(room_id)
        } else {
            CreationStep::Done(room_id)
        },
        CreationEvent::Encrypted => CreationStep::Done(room_id),
    }
}

/// A request to redact the event of a bookmark.
#[derive(Debug)]
pub struct RedactionRequest {
    pub event_id: EventId,
    pub reason: String,
}

impl Client {
    /// What is done, given what the search for the room brought.
    pub fn with_bookmarks_room(found: Result<Option<Room>, String>, create_if_needed: bool) -> (step:
        BookmarksRoomStep)
        ensures
            step == match found {
                Ok(Some(room)) => BookmarksRoomStep::Use(room),
                Ok(None) => if create_if_needed {
                    BookmarksRoomStep::Create
                } else {
                    BookmarksRoomStep::GiveUp
                },
                Err(_) => BookmarksRoomStep::GiveUp,
            },
    {
        match found {
            Ok(Some(room)) => BookmarksRoomStep::Use(room),
            Ok(None) => if create_if_needed {
                BookmarksRoomStep::Create
            } else {
                BookmarksRoomStep::GiveUp
            },
            Err(_) => BookmarksRoomStep::GiveUp,
        }
    }

    /// The request that removes a bookmark, by the id of its event.
    pub fn unbookmark_event(bookmark_event_id: &EventId) -> (request: RedactionRequest)
        ensures
            request.event_id == *bookmark_event_id,
            request.reason@ == "Bookmark removal"@,
    {
        RedactionRequest {
            event_id: bookmark_event_id.clone(),
            reason: "Bookmark removal".to_owned(),
        }
    }
}

} // verus!
