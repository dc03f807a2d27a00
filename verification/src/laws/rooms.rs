//! Which rooms are known, which are searched, and what is done about the room of the bookmarks.

use vstd::prelude::*;

use crate::events::BookmarkEventContent;
use crate::global::{
    selected, GlobalBookmarkSearchBuilder, GlobalBookmarkSearchIterator,
    GlobalBookmarkSearchRoomState,
};
use crate::ids::{EventId, RoomId};
use crate::rooms::{
    create_bookmarks_room, first_occurrences, next_creation_step, room_ids, room_with_id,
    BookmarksRoomStep, Client, CreationEvent, CreationStep, RedactionRequest, Room, RoomType,
    Visibility,
};

verus! {

/// Whether a list is made of the items of another at the given positions, in their order.
pub open spec fn picks<T>(all: Seq<T>, some: Seq<T>, positions: Seq<int>) -> bool {
    &&& some.len() == positions.len()
    &&& forall|k: int|
        0 <= k < positions.len() ==> 0 <= #[trigger] positions[k] < all.len() && some[k]
            == all[positions[k]]
    &&& forall|k: int, l: int|
        0 <= k < l < positions.len() ==> #[trigger] positions[k] < #[trigger] positions[l]
}

/// One more position at the end.
pub proof fn lemma_picks_one_more<T>(all: Seq<T>, some: Seq<T>, positions: Seq<int>, item: T)
    requires
        picks(all, some, positions),
    ensures
        picks(all.push(item), some, positions),
        picks(all.push(item), some.push(item), positions.push(all.len() as int)),
        positions.push(all.len() as int).contains(all.len() as int),
        forall|i: int| #[trigger]
            positions.push(all.len() as int).contains(i) <==> positions.contains(i) || i
                == all.len(),
        !positions.contains(all.len() as int),
{
    let more = positions.push(all.len() as int);
    assert(more[positions.len() as int] == all.len());
    assert forall|i: int| #[trigger] more.contains(i) <==> positions.contains(i) || i
        == all.len() by {
        if positions.contains(i) {
            let k = choose|k: int| 0 <= k < positions.len() && positions[k] == i;
            assert(more[k] == i);
        }
    }
}

// ---------------------------------------------------------------------------------------------
// The rooms of a client
// ---------------------------------------------------------------------------------------------

/// The positions of the rooms whose ids did not occur before.
proof fn lemma_first_positions(rooms: Seq<Room>) -> (positions: Seq<int>)
    ensures
        picks(rooms, first_occurrences(rooms), positions),
        forall|i: int| #[trigger]
            positions.contains(i) <==> 0 <= i < rooms.len() && forall|j: int|
                0 <= j < i ==> (#[trigger] rooms[j]).room_id@ != rooms[i].room_id@,
        forall|id: Seq<char>| #[trigger]
            room_ids(first_occurrences(rooms)).contains(id) <==> room_ids(rooms).contains(id),
    decreases rooms.len(),
{
    if rooms.len() == 0 {
        let positions = Seq::<int>::empty();
        assert(room_ids(first_occurrences(rooms)) =~= room_ids(rooms));
        positions
    } else {
        let n = rooms.len() - 1;
        let rest = rooms.drop_last();
        let before = first_occurrences(rest);
        let fewer = lemma_first_positions(rest);
        assert(rooms =~= rest.push(rooms.last()));
        lemma_picks_one_more(rest, before, fewer, rooms.last());
        let known = room_ids(before).contains(rooms.last().room_id@);
        let positions = if known {
            fewer
        } else {
            fewer.push(n)
        };
        assert(room_ids(rest).contains(rooms.last().room_id@) <==> exists|j: int|
            0 <= j < n && (#[trigger] rooms[j]).room_id@ == rooms[n].room_id@) by {
            if room_ids(rest).contains(rooms.last().room_id@) {
                let j = choose|j: int|
                    0 <= j < n && room_ids(rest)[j] == rooms.last().room_id@;
                assert(rooms[j].room_id@ == rooms[n].room_id@);
            }
            if exists|j: int| 0 <= j < n && (#[trigger] rooms[j]).room_id@ == rooms[n].room_id@ {
                let j = choose|j: int|
                    0 <= j < n && (#[trigger] rooms[j]).room_id@ == rooms[n].room_id@;
                assert(room_ids(rest)[j] == rooms.last().room_id@);
            }
        }
        assert forall|i: int| #[trigger] positions.contains(i) <==> 0 <= i < rooms.len()
            && forall|j: int|
            0 <= j < i ==> (#[trigger] rooms[j]).room_id@ != rooms[i].room_id@ by {
            assert(fewer.contains(i) <==> 0 <= i < rest.len() && forall|j: int|
                0 <= j < i ==> (#[trigger] rest[j]).room_id@ != rest[i].room_id@);
            if 0 <= i < n {
                assert forall|j: int| 0 <= j < i implies rest[j] == rooms[j] by {}
                if forall|j: int|
                    0 <= j < i ==> (#[trigger] rooms[j]).room_id@ != rooms[i].room_id@ {
                    assert forall|j: int| 0 <= j < i implies (#[trigger] rest[j]).room_id@
                        != rest[i].room_id@ by {
                        assert(rooms[j].room_id@ != rooms[i].room_id@);
                    }
                }
                if forall|j: int| 0 <= j < i ==> (#[trigger] rest[j]).room_id@ != rest[i].room_id@ {
                    assert forall|j: int| 0 <= j < i implies (#[trigger] rooms[j]).room_id@
                        != rooms[i].room_id@ by {
                        assert(rest[j].room_id@ != rest[i].room_id@);
                    }
                }
            }
        }
        let ids = room_ids(first_occurrences(rooms));
        assert(room_ids(rooms) =~= room_ids(rest).push(rooms.last().room_id@));
        assert(!known ==> ids =~= room_ids(before).push(rooms.last().room_id@));
        assert forall|id: Seq<char>| #[trigger] ids.contains(id) <==> room_ids(rooms).contains(
            id,
        ) by {
            lemma_contains_after_push(room_ids(rest), rooms.last().room_id@, id);
            lemma_contains_after_push(room_ids(before), rooms.last().room_id@, id);
            assert(room_ids(before).contains(id) <==> room_ids(rest).contains(id));
        }
        positions
    }
}

/// What a list contains once an item was added.
proof fn lemma_contains_after_push<T>(list: Seq<T>, item: T, other: T)
    ensures
        list.push(item).contains(other) <==> list.contains(other) || other == item,
{
    let more = list.push(item);
    assert(more[list.len() as int] == item);
    if list.contains(other) {
        let k = choose|k: int| 0 <= k < list.len() && list[k] == other;
        assert(more[k] == other);
    }
}

/// A client knows exactly the rooms it was given, each once, in the order in which their ids came first.
pub proof fn law_rooms_are_known_once(rooms: Vec<Room>, client: Client) -> (positions: Seq<int>)
    requires
        call_ensures(Client::new, (rooms,), client),
    ensures
        picks(rooms@, client@, positions),
        forall|i: int| #[trigger]
            positions.contains(i) <==> 0 <= i < rooms@.len() && forall|j: int|
                0 <= j < i ==> (#[trigger] rooms@[j]).room_id@ != rooms@[i].room_id@,
        forall|id: Seq<char>| #[trigger]
            room_ids(client@).contains(id) <==> room_ids(rooms@).contains(id),
{
    lemma_first_positions(rooms@)
}

/// Ids of rooms are listed one by one.
pub proof fn law_room_ids_are_listed(rooms: Seq<Room>)
    ensures
        room_ids(rooms).len() == rooms.len(),
        forall|i: int| 0 <= i < rooms.len() ==> #[trigger] room_ids(rooms)[i] == rooms[i].room_id@,
{
}

/// The first room with an id, and none only where no room has it.
proof fn lemma_room_with_id(rooms: Seq<Room>, room_id: Seq<char>)
    ensures
        match room_with_id(rooms, room_id) {
            Some(room) => exists|i: int|
                {
                    &&& 0 <= i < rooms.len()
                    &&& #[trigger] rooms[i] == room
                    &&& room.room_id@ == room_id
                    &&& forall|j: int| 0 <= j < i ==> (#[trigger] rooms[j]).room_id@ != room_id
                },
            None => forall|i: int|
                0 <= i < rooms.len() ==> (#[trigger] rooms[i]).room_id@ != room_id,
        },
    decreases rooms.len(),
{
    if rooms.len() > 0 && rooms[0].room_id@ != room_id {
        let rest = rooms.skip(1);
        lemma_room_with_id(rest, room_id);
        match room_with_id(rest, room_id) {
            Some(room) => {
                let k = choose|k: int|
                    {
                        &&& 0 <= k < rest.len()
                        &&& #[trigger] rest[k] == room
                        &&& room.room_id@ == room_id
                        &&& forall|j: int| 0 <= j < k ==> (#[trigger] rest[j]).room_id@ != room_id
                    };
                assert(rooms[k + 1] == room);
                assert forall|j: int| 0 <= j < k + 1 implies (#[trigger] rooms[j]).room_id@
                    != room_id by {
                    if j > 0 {
                        assert(rest[j - 1] == rooms[j]);
                    }
                }
            },
            None => {
                assert forall|i: int| 0 <= i < rooms.len() implies (#[trigger] rooms[i]).room_id@
                    != room_id by {
                    if i > 0 {
                        assert(rest[i - 1] == rooms[i]);
                    }
                }
            },
        }
    } else if rooms.len() > 0 {
        assert(rooms[0] == room_with_id(rooms, room_id)->Some_0);
    }
}

/// A room is found by its id: it is one that the client knows and has that id, and none is found only
/// where the client knows none with that id. The room of the bookmarks is found in the same way, if its
/// id is known.
pub proof fn law_room_is_found_by_its_id(
    client: Client,
    room_id: &RoomId,
    room: Option<Room>,
    bookmarks_room: Option<Room>,
    unknown: Option<Room>,
)
    requires
        call_ensures(Client::get_room, (&client, room_id), room),
        call_ensures(Client::get_bookmarks_room, (&client, Some(room_id)), bookmarks_room),
        call_ensures(Client::get_bookmarks_room, (&client, None::<&RoomId>), unknown),
    ensures
        match room {
            Some(found) => exists|i: int|
                {
                    &&& 0 <= i < client@.len()
                    &&& #[trigger] client@[i] == found
                    &&& found.room_id@ == room_id@
                    &&& forall|j: int| 0 <= j < i ==> (#[trigger] client@[j]).room_id@ != room_id@
                },
            None => forall|i: int|
                0 <= i < client@.len() ==> (#[trigger] client@[i]).room_id@ != room_id@,
        },
        bookmarks_room == room,
        unknown is None,
{
    lemma_room_with_id(client@, room_id@);
}

/// The joined rooms are all rooms of the client that are joined, in their order.
pub proof fn law_joined_rooms_are_all_that_are_joined(client: Client, rooms: Vec<Room>)
    requires
        call_ensures(Client::joined_rooms, (&client,), rooms),
    ensures
        rooms@ == client@.filter(|room: Room| room.joined),
        forall|room: Room| #[trigger]
            rooms@.contains(room) <==> client@.contains(room) && room.joined,
{
    let joined = |room: Room| room.joined;
    assert forall|room: Room| #[trigger]
        rooms@.contains(room) <==> client@.contains(room) && room.joined by {
        lemma_filter_has(client@, joined, room);
    }
}

/// A filtered list has the items of the list that pass.
proof fn lemma_filter_has<T>(list: Seq<T>, passes: spec_fn(T) -> bool, item: T)
    ensures
        list.filter(passes).contains(item) <==> list.contains(item) && passes(item),
    decreases list.len(),
{
    reveal(Seq::filter);
    if list.len() > 0 {
        lemma_filter_has(list.drop_last(), passes, item);
        assert(list =~= list.drop_last().push(list.last()));
        lemma_contains_after_push(list.drop_last(), list.last(), item);
        lemma_contains_after_push(list.drop_last().filter(passes), list.last(), item);
    }
}

// ---------------------------------------------------------------------------------------------
// The rooms of a search
// ---------------------------------------------------------------------------------------------

/// A search across rooms is at first one of all joined rooms.
pub proof fn law_search_is_of_all_joined_rooms(
    client: Client,
    query: String,
    num_results_per_batch: usize,
    joined: Vec<Room>,
    builder: GlobalBookmarkSearchBuilder,
)
    requires
        call_ensures(Client::joined_rooms, (&client,), joined),
        call_ensures(Client::search_bookmarks, (&client, query, num_results_per_batch), builder),
    ensures
        builder.rooms() == joined@,
        builder.query() == query@,
        builder.batch_size() == num_results_per_batch,
{
}

/// The positions of the rooms that are marked as wanted.
proof fn lemma_selected_positions(rooms: Seq<Room>, marks: Seq<bool>, wanted: bool) -> (positions:
    Seq<int>)
    ensures
        picks(rooms, selected(rooms, marks, wanted), positions),
        forall|i: int| #[trigger]
            positions.contains(i) <==> 0 <= i < rooms.len() && marks[i] == wanted,
    decreases rooms.len(),
{
    if rooms.len() == 0 {
        Seq::empty()
    } else {
        let n = rooms.len() - 1;
        let rest = rooms.drop_last();
        let fewer = lemma_selected_positions(rest, marks, wanted);
        assert(rooms =~= rest.push(rooms.last()));
        lemma_picks_one_more(rest, selected(rest, marks, wanted), fewer, rooms.last());
        assert(!fewer.contains(n));
        if marks[n] == wanted {
            fewer.push(n)
        } else {
            fewer
        }
    }
}

/// Where the wanted rooms are picked, a room that occurs once is among them if and only if it is wanted.
proof fn lemma_picked_if_wanted(
    rooms: Seq<Room>,
    marks: Seq<bool>,
    wanted: bool,
    kept: Seq<Room>,
    positions: Seq<int>,
    i: int,
)
    requires
        picks(rooms, kept, positions),
        forall|k: int| #[trigger]
            positions.contains(k) <==> 0 <= k < rooms.len() && marks[k] == wanted,
        0 <= i < rooms.len(),
        forall|j: int| 0 <= j < rooms.len() && j != i ==> #[trigger] rooms[j] != rooms[i],
    ensures
        kept.contains(rooms[i]) <==> marks[i] == wanted,
{
    if marks[i] == wanted {
        assert(positions.contains(i));
        let k = choose|k: int| 0 <= k < positions.len() && positions[k] == i;
        assert(kept[k] == rooms[i]);
    }
    if kept.contains(rooms[i]) {
        let k = choose|k: int| 0 <= k < kept.len() && kept[k] == rooms[i];
        assert(rooms[positions[k]] == rooms[i]);
        assert(positions[k] == i);
        assert(positions.contains(i));
    }
}

/// Of the rooms of a search exactly the direct ones are kept, or exactly the others, each of them and
/// in their order, and nothing else about the search changes.
pub proof fn law_rooms_are_kept_by_their_marks(
    builder: GlobalBookmarkSearchBuilder,
    is_dm: &Vec<bool>,
    direct: GlobalBookmarkSearchBuilder,
    others: GlobalBookmarkSearchBuilder,
) -> (positions: (Seq<int>, Seq<int>))
    requires
        call_ensures(GlobalBookmarkSearchBuilder::only_dm_rooms, (builder, is_dm), direct),
        call_ensures(GlobalBookmarkSearchBuilder::no_dms, (builder, is_dm), others),
    ensures
        picks(builder.rooms(), direct.rooms(), positions.0),
        forall|i: int| #[trigger]
            positions.0.contains(i) <==> 0 <= i < builder.rooms().len() && is_dm@[i],
        picks(builder.rooms(), others.rooms(), positions.1),
        forall|i: int| #[trigger]
            positions.1.contains(i) <==> 0 <= i < builder.rooms().len() && !is_dm@[i],
        forall|i: int|
            {
                &&& 0 <= i < builder.rooms().len()
                &&& forall|j: int|
                    0 <= j < builder.rooms().len() && j != i ==> #[trigger] builder.rooms()[j]
                        != builder.rooms()[i]
            } ==> {
                &&& direct.rooms().contains(#[trigger] builder.rooms()[i]) <==> is_dm@[i]
                &&& others.rooms().contains(builder.rooms()[i]) <==> !is_dm@[i]
            },
        direct.query() == builder.query(),
        direct.batch_size() == builder.batch_size(),
        others.query() == builder.query(),
        others.batch_size() == builder.batch_size(),
{
    let rooms = builder.rooms();
    let of_direct = lemma_selected_positions(rooms, is_dm@, true);
    let of_others = lemma_selected_positions(rooms, is_dm@, false);
    assert forall|i: int|
        {
            &&& 0 <= i < rooms.len()
            &&& forall|j: int| 0 <= j < rooms.len() && j != i ==> #[trigger] rooms[j] != rooms[i]
        } implies {
        &&& direct.rooms().contains(#[trigger] rooms[i]) <==> is_dm@[i]
        &&& others.rooms().contains(rooms[i]) <==> !is_dm@[i]
    } by {
        lemma_picked_if_wanted(rooms, is_dm@, true, direct.rooms(), of_direct, i);
        lemma_picked_if_wanted(rooms, is_dm@, false, others.rooms(), of_others, i);
    }
    (of_direct, of_others)
}

/// A search across rooms starts in every room of it before the first result, with nothing buffered.
pub proof fn law_search_starts_in_every_room(
    builder: GlobalBookmarkSearchBuilder,
    iterator: GlobalBookmarkSearchIterator,
    rooms: &Vec<Room>,
)
    requires
        call_ensures(GlobalBookmarkSearchBuilder::build, (builder,), iterator),
        call_ensures(GlobalBookmarkSearchBuilder::room_set, (&builder,), rooms),
    ensures
        rooms@ == builder.rooms(),
        iterator@.rooms.len() == rooms@.len(),
        forall|i: int|
            0 <= i < rooms@.len() ==> (#[trigger] iterator@.rooms[i]).room_id
                == rooms@[i].room_id@ && iterator@.rooms[i].offset is None,
        iterator@.batch.len() == 0,
        iterator@.query == builder.query(),
        iterator@.num_results_per_batch == builder.batch_size(),
{
}

/// The search in a room starts before the first result.
pub proof fn law_room_is_searched_from_the_start(room: Room, state: GlobalBookmarkSearchRoomState)
    requires
        call_ensures(GlobalBookmarkSearchRoomState::new, (room,), state),
    ensures
        state@.room_id == room.room_id@,
        state@.offset is None,
{
}

// ---------------------------------------------------------------------------------------------
// The room of the bookmarks
// ---------------------------------------------------------------------------------------------

/// A bookmark of an event in a room points at that event in that room, and names the room, if it has a
/// name, and the sender.
pub proof fn law_bookmark_is_of_the_event(
    room: Room,
    event_id: &EventId,
    sender_display_name: &str,
    content: BookmarkEventContent,
)
    requires
        call_ensures(Room::bookmark_event, (&room, event_id, sender_display_name), content),
    ensures
        content.pointer.room_id@ == room.room_id@,
        content.pointer.event_id@ == event_id@,
        content.pointer.via@.len() == 0,
        content.sender_display_name@ == sender_display_name@,
        room.display_name matches Some(name) ==> content.room_display_name@ == name@,
        room.display_name is None ==> content.room_display_name@.len() == 0,
        content.relates_to is None,
{
}

/// The room of the bookmarks is used where it was found, created where it was not and may be, and done
/// without otherwise.
pub proof fn law_bookmarks_room_is_used_or_created(
    room: Room,
    reason: String,
    create_if_needed: bool,
    found: BookmarksRoomStep,
    missing: BookmarksRoomStep,
    failed: BookmarksRoomStep,
)
    requires
        call_ensures(
            Client::with_bookmarks_room,
            (Ok::<Option<Room>, String>(Some(room)), create_if_needed),
            found,
        ),
        call_ensures(
            Client::with_bookmarks_room,
            (Ok::<Option<Room>, String>(None), create_if_needed),
            missing,
        ),
        call_ensures(
            Client::with_bookmarks_room,
            (Err::<Option<Room>, String>(reason), create_if_needed),
            failed,
        ),
    ensures
        found == BookmarksRoomStep::Use(room),
        create_if_needed ==> missing is Create,
        !create_if_needed ==> missing is GiveUp,
        failed is GiveUp,
{
}

/// A room for the bookmarks is created in private, noted, encrypted where that can be done, and ready
/// only then.
pub proof fn law_bookmarks_room_is_set_up(
    room_id: RoomId,
    encryption: bool,
    first: CreationStep,
    created: CreationStep,
    noted: CreationStep,
    encrypted: CreationStep,
)
    requires
        call_ensures(create_bookmarks_room, (), first),
        call_ensures(next_creation_step, (CreationEvent::Created, room_id, encryption), created),
        call_ensures(next_creation_step, (CreationEvent::Noted, room_id, encryption), noted),
        call_ensures(next_creation_step, (CreationEvent::Encrypted, room_id, encryption), encrypted),
    ensures
        first matches CreationStep::Create(request) && request.visibility == Visibility::Private
            && request.name@ == "Bookmarks"@ && request.room_type == RoomType::Bookmarks,
        created == CreationStep::SetAccountData(room_id),
        encryption ==> noted == CreationStep::EnableEncryption(room_id),
        !encryption ==> noted == CreationStep::Done(room_id),
        encrypted == CreationStep::Done(room_id),
{
}

/// A bookmark is removed by redacting its event.
pub proof fn law_bookmark_is_removed_by_redaction(event_id: &EventId, request: RedactionRequest)
    requires
        call_ensures(Client::unbookmark_event, (event_id,), request),
    ensures
        request.event_id@ == event_id@,
        request.reason@ == "Bookmark removal"@,
{
}

} // verus!
