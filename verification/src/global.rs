//! Searches for bookmarks across rooms, merged by relevance.

use vstd::hash_set::StringHashSet;
use vstd::prelude::*;
use vstd::seq_lib::{group_to_multiset_ensures, lemma_multiset_commutative};

use crate::bookmark::{found_views, Found, IndexedBookmark};
use crate::engine::MAX_RESULT_WINDOW;
use crate::error::IndexError;
use crate::ids::{score_rank, RoomId};
use crate::index::{is_wildcard, page_fits, readable, search_clauses, start_of, BookmarkIndex};
use crate::laws::search::law_results_are_bounded;
use crate::model::answers;
use crate::nesting::is_shallow;
use crate::rooms::{distinct_rooms, Client, Room};
use crate::search::{current, latest_version, moved_on};

verus! {

/// How far the search in a room has come.
#[verifier::ext_equal]
pub struct RoomProgress {
    pub room_id: Seq<char>,
    /// Where the next results start, or nothing before the first ones were asked for.
    pub offset: Option<usize>,
}

/// A bookmark that was found, and the room it was found in.
#[verifier::ext_equal]
pub struct Entry {
    pub room_id: Seq<char>,
    pub found: Found,
}

/// What an iterator over the results in several rooms holds.
#[verifier::ext_equal]
pub struct GlobalSearch {
    pub query: Seq<char>,
    pub num_results_per_batch: usize,
    /// The rooms that may have more results.
    pub rooms: Seq<RoomProgress>,
    /// The results that were fetched and not handed out.
    pub batch: Seq<Entry>,
}

/// Whether scores never increase.
pub open spec fn by_relevance(entries: Seq<Entry>) -> bool {
    forall|i: int, j: int|
        0 <= i < j < entries.len() ==> score_rank((#[trigger] entries[i]).found.score)
            >= score_rank((#[trigger] entries[j]).found.score)
}

/// Whether no two rooms are the same.
pub open spec fn distinct_progress(rooms: Seq<RoomProgress>) -> bool {
    forall|i: int, j: int|
        0 <= i < j < rooms.len() ==> (#[trigger] rooms[i]).room_id != (#[trigger] rooms[j]).room_id
}

/// The state for one room of a search across rooms.
#[derive(Debug)]
pub struct GlobalBookmarkSearchRoomState {
    /// The room.
    room: Room,
    /// Where the next results start, or nothing before the first ones were asked for.
    offset: Option<usize>,
}

impl View for GlobalBookmarkSearchRoomState {
    type V = RoomProgress;

    closed spec fn view(&self) -> RoomProgress {
        RoomProgress { room_id: self.room.room_id@, offset: self.offset }
    }
}

impl GlobalBookmarkSearchRoomState {
    /// The state of a room in which the search has not begun.
    pub fn new(room: Room) -> (state: GlobalBookmarkSearchRoomState)
        ensures
            state@ == (RoomProgress { room_id: room.room_id@, offset: None }),
    {
        GlobalBookmarkSearchRoomState { room, offset: None }
    }
}

/// A builder for a search across rooms, with the rooms to search in.
#[derive(Debug)]
pub struct GlobalBookmarkSearchBuilder {
    /// The search query.
    query: String,
    /// The number of results, at most, per batch.
    num_results_per_batch: usize,
    /// The rooms to search in.
    room_set: Vec<Room>,
}

/// The rooms that are marked as wanted.
pub open spec fn selected(rooms: Seq<Room>, marks: Seq<bool>, wanted: bool) -> Seq<Room>
    decreases rooms.len(),
{
    if rooms.len() == 0 {
        Seq::empty()
    } else {
        let before = selected(rooms.drop_last(), marks, wanted);
        if marks[rooms.len() - 1] == wanted {
            before.push(rooms.last())
        } else {
            before
        }
    }
}

/// Selecting among distinct rooms leaves distinct rooms.
proof fn lemma_selected_distinct(rooms: Seq<Room>, marks: Seq<bool>, wanted: bool)
    requires
        distinct_rooms(rooms),
    ensures
        distinct_rooms(selected(rooms, marks, wanted)),
        forall|i: int|
            0 <= i < selected(rooms, marks, wanted).len() ==> rooms.contains(
                #[trigger] selected(rooms, marks, wanted)[i],
            ),
    decreases rooms.len(),
{
    if rooms.len() > 0 {
        let rest = rooms.drop_last();
        let before = selected(rest, marks, wanted);
        let after = selected(rooms, marks, wanted);
        lemma_selected_distinct(rest, marks, wanted);
        assert forall|i: int| 0 <= i < before.len() implies rooms.contains(#[trigger] before[i])
            && before[i].room_id@ != rooms.last().room_id@ by {
            let k = choose|k: int| 0 <= k < rest.len() && rest[k] == before[i];
            assert(rooms[k] == before[i]);
        }
        assert(rooms[rooms.len() - 1] == rooms.last());
        assert forall|i: int| 0 <= i < after.len() implies rooms.contains(#[trigger] after[i]) by {
            if i < before.len() {
                assert(after[i] == before[i]);
            }
        }
    }
}

impl Client {
    /// Searches across the bookmarks of all joined rooms, and returns a builder for an iterator over
    /// the results.
    pub fn search_bookmarks(&self, query: String, num_results_per_batch: usize) -> (builder:
        GlobalBookmarkSearchBuilder)
        ensures
            builder.rooms() == self@.filter(|room: Room| room.joined),
            builder.query() == query@,
            builder.batch_size() == num_results_per_batch,
    {
        GlobalBookmarkSearchBuilder::new(self, query, num_results_per_batch)
    }
}

impl GlobalBookmarkSearchBuilder {
    #[verifier::type_invariant]
    spec fn distinct(self) -> bool {
        distinct_rooms(self.room_set@)
    }

    /// The rooms to search in.
    pub closed spec fn rooms(&self) -> Seq<Room> {
        self.room_set@
    }

    /// The search query.
    pub closed spec fn query(&self) -> Seq<char> {
        self.query@
    }

    /// The number of results, at most, per batch.
    pub closed spec fn batch_size(&self) -> usize {
        self.num_results_per_batch
    }

    /// A search in all joined rooms.
    fn new(client: &Client, query: String, num_results_per_batch: usize) -> (builder:
        GlobalBookmarkSearchBuilder)
        ensures
            builder.rooms() == client@.filter(|room: Room| room.joined),
            builder.query() == query@,
            builder.batch_size() == num_results_per_batch,
    {
        let room_set = client.joined_rooms();
        GlobalBookmarkSearchBuilder { query, num_results_per_batch, room_set }
    }

    /// The rooms to search in.
    pub fn room_set(&self) -> (rooms: &Vec<Room>)
        ensures
            rooms@ == self.rooms(),
    {
        &self.room_set
    }

    /// Keeps the rooms that are marked as wanted.
    fn keep(self, marks: &Vec<bool>, wanted: bool) -> (builder: GlobalBookmarkSearchBuilder)
        requires
            marks@.len() == self.rooms().len(),
        ensures
            builder.rooms() == selected(self.rooms(), marks@, wanted),
            builder.query() == self.query(),
            builder.batch_size() == self.batch_size(),
    {
        let ghost all = self.room_set@;
        proof {
            use_type_invariant(&self);
            lemma_selected_distinct(all, marks@, wanted);
        }
        let mut room_set: Vec<Room> = Vec::new();
        let mut i: usize = 0;
        assert(all.take(0) =~= Seq::empty());
        while i < self.room_set.len()
            invariant
                all == self.room_set@,
                marks@.len() == all.len(),
                i <= all.len(),
                room_set@ == selected(all.take(i as int), marks@, wanted),
            decreases all.len() - i,
        {
            assert(all.take(i + 1).drop_last() =~= all.take(i as int));
            assert(all.take(i + 1).last() == all[i as int]);
            if marks[i] == wanted {
                room_set.push(self.room_set[i].clone());
            }
            i += 1;
        }
        assert(all.take(i as int) =~= all);
        GlobalBookmarkSearchBuilder {
            query: self.query,
            num_results_per_batch: self.num_results_per_batch,
            room_set,
        }
    }

    /// Keeps only the direct-message rooms. The marks tell, for each room to search in, whether it
    /// is one.
    pub fn only_dm_rooms(self, is_dm: &Vec<bool>) -> (builder: GlobalBookmarkSearchBuilder)
        requires
            is_dm@.len() == self.rooms().len(),
        ensures
            builder.rooms() == selected(self.rooms(), is_dm@, true),
            builder.query() == self.query(),
            builder.batch_size() == self.batch_size(),
    {
        self.keep(is_dm, true)
    }

    /// Keeps only the rooms that are no direct-message rooms. The marks tell, for each room to
    /// search in, whether it is one.
    pub fn no_dms(self, is_dm: &Vec<bool>) -> (builder: GlobalBookmarkSearchBuilder)
        requires
            is_dm@.len() == self.rooms().len(),
        ensures
            builder.rooms() == selected(self.rooms(), is_dm@, false),
            builder.query() == self.query(),
            builder.batch_size() == self.batch_size(),
    {
        self.keep(is_dm, false)
    }

    /// Builds the iterator.
    pub fn build(self) -> (iterator: GlobalBookmarkSearchIterator)
        ensures
            iterator.wf(),
            iterator@ == (GlobalSearch {
                query: self.query(),
                num_results_per_batch: self.batch_size(),
                rooms: self.rooms().map_values(
                    |room: Room| RoomProgress { room_id: room.room_id@, offset: None },
                ),
                batch: Seq::empty(),
            }),
    {
        proof {
            use_type_invariant(&self);
        }
        let ghost all = self.room_set@;
        let mut room_state: Vec<GlobalBookmarkSearchRoomState> = Vec::new();
        for room in rooms: self.room_set.into_iter()
            invariant
                rooms.seq() == all,
                room_state@.len() == rooms.index(),
                forall|i: int|
                    0 <= i < room_state@.len() ==> (#[trigger] room_state@[i])@ == (RoomProgress {
                        room_id: all[i].room_id@,
                        offset: None,
                    }),
        {
            room_state.push(GlobalBookmarkSearchRoomState::new(room));
        }
        let iterator = GlobalBookmarkSearchIterator {
            query: self.query,
            room_state,
            current_batch: Vec::new(),
            num_results_per_batch: self.num_results_per_batch,
        };
        proof {
            assert forall|i: int, j: int| 0 <= i < j < iterator@.rooms.len() implies (
            #[trigger] iterator@.rooms[i]).room_id != (#[trigger] iterator@.rooms[j]).room_id by {
                assert(iterator@.rooms[i] == room_state@[i]@);
                assert(iterator@.rooms[j] == room_state@[j]@);
            }
        }
        iterator
    }
}

/// An iterator over the results of a search across rooms.
#[derive(Debug)]
pub struct GlobalBookmarkSearchIterator {
    /// The search query.
    query: String,
    /// The state for each room that may still have results. This list shrinks as rooms run out of
    /// results, until it is empty and the iteration is done.
    room_state: Vec<GlobalBookmarkSearchRoomState>,
    /// A buffer for the results across all rooms, by descending score, so that results are returned
    /// in relevance order.
    current_batch: Vec<(RoomId, IndexedBookmark)>,
    /// The number of results, at most, per batch.
    num_results_per_batch: usize,
}

/// The results with their rooms.
pub open spec fn entry_views(entries: Seq<(RoomId, IndexedBookmark)>) -> Seq<Entry> {
    entries.map_values(
        |entry: (RoomId, IndexedBookmark)| Entry { room_id: entry.0@, found: entry.1@ },
    )
}

impl View for GlobalBookmarkSearchIterator {
    type V = GlobalSearch;

    closed spec fn view(&self) -> GlobalSearch {
        GlobalSearch {
            query: self.query@,
            num_results_per_batch: self.num_results_per_batch,
            rooms: self.room_state@.map_values(|state: GlobalBookmarkSearchRoomState| state@),
            batch: entry_views(self.current_batch@),
        }
    }
}

impl GlobalBookmarkSearchIterator {
    /// Whether the buffer is in relevance order, no room occurs twice, and nothing is buffered once
    /// all rooms are exhausted.
    pub open spec fn wf(&self) -> bool {
        global_wf(self@)
    }
}

/// Whether the buffer is in relevance order, no room occurs twice, and nothing is buffered once all
/// rooms are exhausted.
pub open spec fn global_wf(search: GlobalSearch) -> bool {
    &&& by_relevance(search.batch)
    &&& distinct_progress(search.rooms)
    &&& search.rooms.len() == 0 ==> search.batch.len() == 0
}

// ---------------------------------------------------------------------------------------------
// A round of searches
// ---------------------------------------------------------------------------------------------

/// The results of a room with the room.
pub open spec fn entries_of(room_id: Seq<char>, results: Seq<Found>) -> Seq<Entry> {
    results.map_values(|found: Found| Entry { room_id, found })
}

/// The results of the first rooms, one list per room, with their rooms.
pub open spec fn fetched_entries(rooms: Seq<RoomProgress>, fetched: Seq<Seq<Found>>) -> Seq<Entry>
    decreases fetched.len(),
{
    if fetched.len() == 0 {
        Seq::empty()
    } else {
        fetched_entries(rooms, fetched.drop_last()) + entries_of(
            rooms[fetched.len() - 1].room_id,
            fetched.last(),
        )
    }
}

/// Whether there are enough results for a batch right after the results of the last room, of which
/// there must be some.
pub open spec fn enough(search: GlobalSearch, fetched: Seq<Seq<Found>>) -> bool {
    &&& fetched.len() > 0
    &&& fetched.last().len() > 0
    &&& search.batch.len() + fetched_entries(search.rooms, fetched).len()
        >= search.num_results_per_batch
}

/// Whether the lists are results of the first rooms, each from where the search in the room had
/// come, and no list but perhaps the last made it enough.
pub open spec fn fetches(
    index: BookmarkIndex,
    search: GlobalSearch,
    fetched: Seq<Seq<Found>>,
) -> bool {
    &&& fetched.len() <= search.rooms.len()
    &&& forall|i: int|
        0 <= i < fetched.len() ==> answers(
            index@.committed,
            search_clauses(index.parser(), search.query, Some(search.rooms[i].room_id)),
            start_of(search.rooms[i].offset),
            search.num_results_per_batch as int,
            #[trigger] fetched[i],
        )
    &&& forall|i: int| 0 <= i < fetched.len() ==> !enough(search, #[trigger] fetched.take(i))
}

/// The rooms after a round of searches: where there were results the search goes on after them.
pub open spec fn moved_rooms(rooms: Seq<RoomProgress>, fetched: Seq<Seq<Found>>) -> Seq<
    RoomProgress,
> {
    Seq::new(
        rooms.len(),
        |i: int|
            if i < fetched.len() && fetched[i].len() > 0 {
                RoomProgress {
                    room_id: rooms[i].room_id,
                    offset: moved_on(rooms[i].offset, fetched[i].len()),
                }
            } else {
                rooms[i]
            },
    )
}

/// The rooms that had no results.
pub open spec fn exhausted_rooms(rooms: Seq<RoomProgress>, fetched: Seq<Seq<Found>>) -> Set<
    Seq<char>,
> {
    Set::new(
        |room_id: Seq<char>|
            exists|i: int|
                0 <= i < fetched.len() && (#[trigger] fetched[i]).len() == 0 && rooms[i].room_id
                    == room_id,
    )
}

/// The rooms that are left after a round of searches.
pub open spec fn remaining_rooms(rooms: Seq<RoomProgress>, fetched: Seq<Seq<Found>>) -> Seq<
    RoomProgress,
> {
    moved_rooms(rooms, fetched).filter(
        |room: RoomProgress| !exhausted_rooms(rooms, fetched).contains(room.room_id),
    )
}

/// Whether two lists hold the same results.
pub open spec fn same_entries(left: Seq<Entry>, right: Seq<Entry>) -> bool {
    left.to_multiset() == right.to_multiset()
}

/// Whether a round of searches leads from one state to the next and hands out the given results.
///
/// The rooms are searched in order until there is enough for a batch. What was buffered and what was
/// fetched is put in relevance order. The front of it, as much as makes a batch, is handed out, and
/// the rest is buffered. Rooms without results are dropped.
pub open spec fn round(
    index: BookmarkIndex,
    before: GlobalSearch,
    fetched: Seq<Seq<Found>>,
    handed_out: Seq<Entry>,
    after: GlobalSearch,
) -> bool {
    let pool = before.batch + fetched_entries(before.rooms, fetched);
    &&& fetches(index, before, fetched)
    &&& fetched.len() == before.rooms.len() || enough(before, fetched)
    &&& same_entries(handed_out + after.batch, pool)
    &&& by_relevance(handed_out + after.batch)
    &&& handed_out.len() == if pool.len() < before.num_results_per_batch {
        pool.len() as int
    } else {
        before.num_results_per_batch as int
    }
    &&& after == (GlobalSearch {
        rooms: remaining_rooms(before.rooms, fetched),
        batch: after.batch,
        ..before
    })
}

/// Whether a round of searches that fails midway leads from one state to the next: what was fetched
/// so far is buffered, and no room is dropped.
pub open spec fn failed_round(
    index: BookmarkIndex,
    before: GlobalSearch,
    fetched: Seq<Seq<Found>>,
    after: GlobalSearch,
) -> bool {
    &&& fetches(index, before, fetched)
    &&& fetched.len() < before.rooms.len()
    &&& !enough(before, fetched)
    &&& same_entries(after.batch, before.batch + fetched_entries(before.rooms, fetched))
    &&& by_relevance(after.batch)
    &&& after == (GlobalSearch {
        rooms: moved_rooms(before.rooms, fetched),
        batch: after.batch,
        ..before
    })
}

/// Whether the searches of the next round can be made.
pub open spec fn round_fits(search: GlobalSearch) -> bool {
    search.batch.len() < search.num_results_per_batch ==> forall|i: int|
        0 <= i < search.rooms.len() ==> page_fits(
            search.num_results_per_batch,
            (#[trigger] search.rooms[i]).offset,
        )
}

/// Inserting a result keeps relevance order.
proof fn lemma_insert_by_relevance(entries: Seq<Entry>, at: int, entry: Entry)
    requires
        by_relevance(entries),
        0 <= at <= entries.len(),
        forall|i: int|
            0 <= i < at ==> score_rank((#[trigger] entries[i]).found.score) >= score_rank(
                entry.found.score,
            ),
        forall|i: int|
            at <= i < entries.len() ==> score_rank((#[trigger] entries[i]).found.score)
                <= score_rank(entry.found.score),
    ensures
        by_relevance(entries.insert(at, entry)),
{
    let more = entries.insert(at, entry);
    assert forall|i: int, j: int| 0 <= i < j < more.len() implies score_rank(
        (#[trigger] more[i]).found.score,
    ) >= score_rank((#[trigger] more[j]).found.score) by {
        if i < at {
            assert(more[i] == entries[i]);
        } else if i > at {
            assert(more[i] == entries[i - 1]);
        }
        if j < at {
            assert(more[j] == entries[j]);
        } else if j > at {
            assert(more[j] == entries[j - 1]);
        }
    }
}

/// Puts a result into a buffer in relevance order, behind all that are as relevant.
fn insert_by_relevance(batch: &mut Vec<(RoomId, IndexedBookmark)>, entry: (RoomId, IndexedBookmark))
    requires
        by_relevance(entry_views(old(batch)@)),
    ensures
        by_relevance(entry_views(final(batch)@)),
        entry_views(final(batch)@).to_multiset() == entry_views(old(batch)@).to_multiset().insert(
            (Entry { room_id: entry.0@, found: entry.1@ }),
        ),
{
    let ghost before = batch@;
    let ghost views = entry_views(before);
    let ghost view = Entry { room_id: entry.0@, found: entry.1@ };
    let mut at: usize = batch.len();
    while at > 0 && entry.1.score.is_above(&batch[at - 1].1.score)
        invariant
            at <= batch@.len(),
            batch@ == before,
            views == entry_views(before),
            view == (Entry { room_id: entry.0@, found: entry.1@ }),
            by_relevance(views),
            forall|i: int|
                at <= i < views.len() ==> score_rank((#[trigger] views[i]).found.score)
                    <= score_rank(view.found.score),
        decreases at,
    {
        assert(views[at - 1].found.score == before[at - 1].1.score.bits);
        at -= 1;
    }
    proof {
        if at > 0 {
            assert(views[at - 1].found.score == before[at - 1].1.score.bits);
        }
        assert forall|i: int| 0 <= i < at implies score_rank((#[trigger] views[i]).found.score)
            >= score_rank(view.found.score) by {
            if i < at - 1 {
                assert(score_rank(views[i].found.score) >= score_rank(views[at - 1].found.score));
            }
        }
        lemma_insert_by_relevance(views, at as int, view);
        vstd::seq_lib::to_multiset_insert(views, at as int, view);
    }
    batch.insert(at, entry);
    assert(entry_views(batch@) =~= views.insert(at as int, view));
}

impl GlobalBookmarkSearchIterator {
    /// Whether the searches of the next round can be made: batches are not empty, and no page ends
    /// beyond the farthest one.
    pub fn can_continue(&self) -> (fits: bool)
        ensures
            fits == round_fits(self@),
    {
        if self.current_batch.len() >= self.num_results_per_batch {
            return true;
        }
        let mut i: usize = 0;
        while i < self.room_state.len()
            invariant
                i <= self.room_state@.len(),
                self.current_batch@.len() < self.num_results_per_batch,
                forall|k: int|
                    0 <= k < i ==> page_fits(
                        self.num_results_per_batch,
                        (#[trigger] self.room_state@[k]).offset,
                    ),
            decreases self.room_state@.len() - i,
        {
            let offset: usize = match self.room_state[i].offset {
                Some(offset) => offset,
                None => 0,
            };
            if self.num_results_per_batch > MAX_RESULT_WINDOW || offset > MAX_RESULT_WINDOW
                - self.num_results_per_batch {
                assert(self@.rooms[i as int] == self.room_state@[i as int]@);
                return false;
            }
            i += 1;
        }
        assert forall|k: int| 0 <= k < self@.rooms.len() implies page_fits(
            self.num_results_per_batch,
            (#[trigger] self@.rooms[k]).offset,
        ) by {
            assert(self@.rooms[k] == self.room_state@[k]@);
        }
        true
    }

    /// Hands out the front of the buffer.
    fn take_front(&mut self, count: usize) -> (front: Vec<(RoomId, IndexedBookmark)>)
        requires
            count <= old(self)@.batch.len(),
        ensures
            entry_views(front@) == old(self)@.batch.take(count as int),
            final(self)@ == (GlobalSearch {
                batch: old(self)@.batch.skip(count as int),
                ..old(self)@
            }),
    {
        let ghost before = self.current_batch@;
        let mut rest = self.current_batch.split_off(count);
        std::mem::swap(&mut rest, &mut self.current_batch);
        assert(entry_views(rest@) =~= entry_views(before).take(count as int));
        assert(entry_views(self.current_batch@) =~= entry_views(before).skip(count as int));
        rest
    }

    /// Buffers the results of a room, and has the search in the room go on after them.
    fn absorb(&mut self, i: usize, results: Vec<IndexedBookmark>)
        requires
            i < old(self)@.rooms.len(),
            by_relevance(old(self)@.batch),
            start_of(old(self)@.rooms[i as int].offset) + results@.len() <= usize::MAX,
        ensures
            by_relevance(final(self)@.batch),
            same_entries(
                final(self)@.batch,
                old(self)@.batch + entries_of(
                    old(self)@.rooms[i as int].room_id,
                    found_views(results@),
                ),
            ),
            final(self)@ == (GlobalSearch {
                rooms: old(self)@.rooms.update(
                    i as int,
                    (RoomProgress {
                        room_id: old(self)@.rooms[i as int].room_id,
                        offset: moved_on(old(self)@.rooms[i as int].offset, results@.len()),
                    }),
                ),
                batch: final(self)@.batch,
                ..old(self)@
            }),
    {
        let ghost before = self@;
        let ghost room_id = self@.rooms[i as int].room_id;
        let ghost views = found_views(results@);
        let offset: usize = match self.room_state[i].offset {
            Some(offset) => offset,
            None => 0,
        };
        self.room_state[i].offset = Some(offset + results.len());
        assert(self@.rooms =~= before.rooms.update(
            i as int,
            (RoomProgress {
                room_id,
                offset: moved_on(before.rooms[i as int].offset, results@.len()),
            }),
        ));
        let ghost middle = self@;
        let ghost all = results@;
        assert(before.batch + entries_of(room_id, views.take(0)) =~= before.batch);
        for bookmark in bookmarks: results.into_iter()
            invariant
                bookmarks.seq() == all,
                views == found_views(all),
                i < self.room_state@.len(),
                room_id == self.room_state@[i as int].room.room_id@,
                by_relevance(self@.batch),
                same_entries(
                    self@.batch,
                    before.batch + entries_of(room_id, views.take(bookmarks.index() as int)),
                ),
                self@ == (GlobalSearch { batch: self@.batch, ..middle }),
        {
            let ghost k = bookmarks.index() as int;
            let ghost state = self.room_state@;
            let ghost view = Entry { room_id, found: bookmark@ };
            let room = self.room_state[i].room.room_id.clone();
            insert_by_relevance(&mut self.current_batch, (room, bookmark));
            proof {
                broadcast use group_to_multiset_ensures;

                assert(views[k] == bookmark@);
                let less = before.batch + entries_of(room_id, views.take(k));
                let more = before.batch + entries_of(room_id, views.take(k + 1));
                assert(more =~= less.push(view));
            }
        }
        assert(views.take(all.len() as int) =~= views);
    }
}

/// One more room of a round.
proof fn lemma_fetched_push(search: GlobalSearch, fetched: Seq<Seq<Found>>, results: Seq<Found>)
    requires
        fetched.len() < search.rooms.len(),
    ensures
        fetched_entries(search.rooms, fetched.push(results)) == fetched_entries(
            search.rooms,
            fetched,
        ) + entries_of(search.rooms[fetched.len() as int].room_id, results),
        moved_rooms(search.rooms, fetched.push(results)) == if results.len() == 0 {
            moved_rooms(search.rooms, fetched)
        } else {
            moved_rooms(search.rooms, fetched).update(
                fetched.len() as int,
                (RoomProgress {
                    room_id: search.rooms[fetched.len() as int].room_id,
                    offset: moved_on(
                        search.rooms[fetched.len() as int].offset,
                        results.len(),
                    ),
                }),
            )
        },
        exhausted_rooms(search.rooms, fetched.push(results)) == if results.len() == 0 {
            exhausted_rooms(search.rooms, fetched).insert(
                search.rooms[fetched.len() as int].room_id,
            )
        } else {
            exhausted_rooms(search.rooms, fetched)
        },
{
    let rooms = search.rooms;
    let more = fetched.push(results);
    assert(more.drop_last() =~= fetched);
    if results.len() == 0 {
        assert(moved_rooms(rooms, more) =~= moved_rooms(rooms, fetched));
    } else {
        assert(moved_rooms(rooms, more) =~= moved_rooms(rooms, fetched).update(
            fetched.len() as int,
            (RoomProgress {
                room_id: rooms[fetched.len() as int].room_id,
                offset: moved_on(rooms[fetched.len() as int].offset, results.len()),
            }),
        ));
    }
    let ids = exhausted_rooms(rooms, fetched);
    let ids_more = exhausted_rooms(rooms, more);
    assert forall|id: Seq<char>| ids.contains(id) implies ids_more.contains(id) by {
        let i = choose|i: int|
            0 <= i < fetched.len() && (#[trigger] fetched[i]).len() == 0 && rooms[i].room_id == id;
        assert(more[i].len() == 0);
    }
    assert forall|id: Seq<char>| ids_more.contains(id) implies ids.contains(id) || (results.len()
        == 0 && id == rooms[fetched.len() as int].room_id) by {
        let i = choose|i: int|
            0 <= i < more.len() && (#[trigger] more[i]).len() == 0 && rooms[i].room_id == id;
        if i < fetched.len() {
            assert(fetched[i].len() == 0);
        }
    }
    if results.len() == 0 {
        assert(more[fetched.len() as int].len() == 0);
        assert(ids_more =~= ids.insert(rooms[fetched.len() as int].room_id));
    } else {
        assert(ids_more =~= ids);
    }
}

/// One more room of a round keeps the rules of the round.
proof fn lemma_fetches_push(
    index: BookmarkIndex,
    search: GlobalSearch,
    fetched: Seq<Seq<Found>>,
    results: Seq<Found>,
)
    requires
        fetches(index, search, fetched),
        !enough(search, fetched),
        fetched.len() < search.rooms.len(),
        answers(
            index@.committed,
            search_clauses(
                index.parser(),
                search.query,
                Some(search.rooms[fetched.len() as int].room_id),
            ),
            start_of(search.rooms[fetched.len() as int].offset),
            search.num_results_per_batch as int,
            results,
        ),
    ensures
        fetches(index, search, fetched.push(results)),
{
    let more = fetched.push(results);
    assert forall|i: int| 0 <= i < more.len() implies answers(
        index@.committed,
        search_clauses(index.parser(), search.query, Some(search.rooms[i].room_id)),
        start_of(search.rooms[i].offset),
        search.num_results_per_batch as int,
        #[trigger] more[i],
    ) by {
        if i < fetched.len() {
            assert(more[i] == fetched[i]);
        }
    }
    assert forall|i: int| 0 <= i < more.len() implies !enough(search, #[trigger] more.take(i)) by {
        if i < fetched.len() {
            assert(more.take(i) =~= fetched.take(i));
        } else {
            assert(more.take(i) =~= fetched);
        }
    }
}

/// Where no list made it enough, there is less than a batch.
proof fn lemma_not_enough(search: GlobalSearch, fetched: Seq<Seq<Found>>)
    requires
        search.batch.len() < search.num_results_per_batch,
        forall|i: int| 0 <= i < fetched.len() ==> !enough(search, #[trigger] fetched.take(i)),
        !enough(search, fetched),
    ensures
        search.batch.len() + fetched_entries(search.rooms, fetched).len()
            < search.num_results_per_batch,
    decreases fetched.len(),
{
    if fetched.len() > 0 {
        let less = fetched.drop_last();
        assert(less =~= fetched.take(fetched.len() - 1));
        assert forall|i: int| 0 <= i < less.len() implies !enough(
            search,
            #[trigger] less.take(i),
        ) by {
            assert(less.take(i) =~= fetched.take(i));
        }
        lemma_not_enough(search, less);
    }
}

/// Where nothing was fetched, every list is empty.
proof fn lemma_nothing_fetched(rooms: Seq<RoomProgress>, fetched: Seq<Seq<Found>>)
    requires
        fetched_entries(rooms, fetched).len() == 0,
    ensures
        forall|i: int| 0 <= i < fetched.len() ==> (#[trigger] fetched[i]).len() == 0,
    decreases fetched.len(),
{
    if fetched.len() > 0 {
        let less = fetched.drop_last();
        lemma_nothing_fetched(rooms, less);
        assert forall|i: int| 0 <= i < fetched.len() implies (#[trigger] fetched[i]).len() == 0 by {
            if i < less.len() {
                assert(fetched[i] == less[i]);
            }
        }
    }
}

/// A filter keeps the rooms distinct, and keeps what satisfies it.
proof fn lemma_filter_rooms(rooms: Seq<RoomProgress>, keep: spec_fn(RoomProgress) -> bool)
    requires
        distinct_progress(rooms),
    ensures
        distinct_progress(rooms.filter(keep)),
        forall|i: int|
            0 <= i < rooms.filter(keep).len() ==> rooms.contains(
                #[trigger] rooms.filter(keep)[i],
            ) && keep(rooms.filter(keep)[i]),
        forall|i: int|
            0 <= i < rooms.len() && keep(#[trigger] rooms[i]) ==> rooms.filter(keep).contains(
                rooms[i],
            ),
    decreases rooms.len(),
{
    reveal(Seq::filter);
    if rooms.len() > 0 {
        let rest = rooms.drop_last();
        let before = rest.filter(keep);
        let after = rooms.filter(keep);
        lemma_filter_rooms(rest, keep);
        assert(after == if keep(rooms.last()) {
            before.push(rooms.last())
        } else {
            before
        });
        assert forall|i: int| 0 <= i < before.len() implies rooms.contains(#[trigger] before[i])
            && before[i].room_id != rooms.last().room_id by {
            let k = choose|k: int| 0 <= k < rest.len() && rest[k] == before[i];
            assert(rooms[k] == before[i]);
        }
        assert(rooms[rooms.len() - 1] == rooms.last());
        assert forall|i: int| 0 <= i < after.len() implies rooms.contains(#[trigger] after[i])
            && keep(after[i]) by {
            if i < before.len() {
                assert(after[i] == before[i]);
            }
        }
        assert forall|i: int| 0 <= i < rooms.len() && keep(#[trigger] rooms[i]) implies after.contains(
            rooms[i],
        ) by {
            if i < rest.len() {
                assert(rest[i] == rooms[i]);
                let k = choose|k: int| 0 <= k < before.len() && before[k] == rooms[i];
                assert(after[k] == rooms[i]);
            } else {
                assert(after[after.len() - 1] == rooms[i]);
            }
        }
    }
}

/// A round keeps the rules of the state, and where it has nothing to hand out no room is left.
pub proof fn lemma_round_wf(
    index: BookmarkIndex,
    before: GlobalSearch,
    fetched: Seq<Seq<Found>>,
    handed_out: Seq<Entry>,
    after: GlobalSearch,
)
    requires
        global_wf(before),
        before.batch.len() < before.num_results_per_batch,
        round(index, before, fetched, handed_out, after),
    ensures
        global_wf(after),
        handed_out.len() == 0 ==> after.rooms.len() == 0,
{
    broadcast use group_to_multiset_ensures;

    let rooms = before.rooms;
    let moved = moved_rooms(rooms, fetched);
    let ids = exhausted_rooms(rooms, fetched);
    let keep = |room: RoomProgress| !ids.contains(room.room_id);
    let entries = fetched_entries(rooms, fetched);
    assert(distinct_progress(moved)) by {
        assert forall|i: int, j: int| 0 <= i < j < moved.len() implies (#[trigger] moved[i]).room_id
            != (#[trigger] moved[j]).room_id by {
            assert(moved[i].room_id == rooms[i].room_id);
            assert(moved[j].room_id == rooms[j].room_id);
        }
    }
    lemma_filter_rooms(moved, keep);
    assert(after.rooms =~= moved.filter(keep));
    let whole = handed_out + after.batch;
    assert(whole.to_multiset().len() == (before.batch + entries).to_multiset().len());
    assert(whole.len() == (before.batch + entries).len());
    assert forall|i: int, j: int| 0 <= i < j < after.batch.len() implies score_rank(
        (#[trigger] after.batch[i]).found.score,
    ) >= score_rank((#[trigger] after.batch[j]).found.score) by {
        assert(whole[handed_out.len() + i] == after.batch[i]);
        assert(whole[handed_out.len() + j] == after.batch[j]);
    }
    if enough(before, fetched) {
        let last = fetched.len() - 1;
        assert(!ids.contains(rooms[last].room_id)) by {
            if ids.contains(rooms[last].room_id) {
                let i = choose|i: int|
                    0 <= i < fetched.len() && (#[trigger] fetched[i]).len() == 0
                        && rooms[i].room_id == rooms[last].room_id;
                assert(i == last);
            }
        }
        assert(keep(moved[last]));
        assert(after.rooms.contains(moved[last]));
    } else {
        lemma_not_enough(before, fetched);
        if handed_out.len() == 0 {
            lemma_nothing_fetched(rooms, fetched);
            if after.rooms.len() > 0 {
                let room = after.rooms[0];
                assert(moved.contains(room) && keep(room));
                let i = choose|i: int| 0 <= i < moved.len() && moved[i] == room;
                assert(fetched[i].len() == 0);
                assert(ids.contains(rooms[i].room_id));
            }
        }
    }
}

impl GlobalBookmarkSearchIterator {
    /// Drops the given rooms.
    fn drop_rooms(&mut self, exhausted: &StringHashSet)
        ensures
            final(self)@ == (GlobalSearch {
                rooms: old(self)@.rooms.filter(
                    |room: RoomProgress| !exhausted@.contains(room.room_id),
                ),
                ..old(self)@
            }),
    {
        let ghost before = self@;
        let ghost keep = |room: RoomProgress| !exhausted@.contains(room.room_id);
        let mut states: Vec<GlobalBookmarkSearchRoomState> = Vec::new();
        std::mem::swap(&mut states, &mut self.room_state);
        let ghost all = states@;
        let mut kept: Vec<GlobalBookmarkSearchRoomState> = Vec::new();
        assert(before.rooms.take(0).filter(keep) =~= Seq::empty()) by {
            reveal(Seq::filter);
        }
        for state in remaining: states.into_iter()
            invariant
                remaining.seq() == all,
                before.rooms.len() == all.len(),
                forall|i: int| 0 <= i < all.len() ==> before.rooms[i] == (#[trigger] all[i])@,
                keep == |room: RoomProgress| !exhausted@.contains(room.room_id),
                kept@.map_values(|state: GlobalBookmarkSearchRoomState| state@)
                    == before.rooms.take(remaining.index() as int).filter(keep),
        {
            let ghost k = remaining.index() as int;
            let ghost kept_before = kept@.map_values(
                |state: GlobalBookmarkSearchRoomState| state@,
            );
            proof {
                reveal(Seq::filter);
                assert(before.rooms.take(k + 1).drop_last() =~= before.rooms.take(k));
                assert(before.rooms.take(k + 1).last() == state@);
            }
            if !exhausted.contains(state.room.room_id.as_str()) {
                kept.push(state);
                assert(kept@.map_values(|state: GlobalBookmarkSearchRoomState| state@)
                    =~= kept_before.push(state@));
            }
        }
        assert(before.rooms.take(all.len() as int) =~= before.rooms);
        self.room_state = kept;
    }

    /// Whether the next batch takes a round of searches.
    pub fn needs_search(&self) -> (needed: bool)
        ensures
            needed == search_needed(self@),
    {
        self.room_state.len() > 0 && self.current_batch.len() < self.num_results_per_batch
    }

    /// The next batch where it takes no search: what is buffered, or nothing once no room is left.
    pub fn next_buffered(&mut self) -> (batch: Option<Vec<(RoomId, IndexedBookmark)>>)
        requires
            old(self).wf(),
            !search_needed(old(self)@),
        ensures
            final(self).wf(),
            batch is None <==> old(self)@.rooms.len() == 0,
            match batch {
                Some(entries) => {
                    let count = old(self)@.num_results_per_batch as int;
                    &&& entry_views(entries@) == old(self)@.batch.take(count)
                    &&& by_relevance(entry_views(entries@))
                    &&& final(self)@ == (GlobalSearch {
                        batch: old(self)@.batch.skip(count),
                        ..old(self)@
                    })
                },
                None => final(self)@ == old(self)@,
            },
    {
        if self.room_state.len() == 0 {
            return None;
        }
        let count = self.num_results_per_batch;
        let front = self.take_front(count);
        Some(front)
    }

    /// The next batch of bookmarks that match the query across all rooms, or nothing if there are no
    /// more results.
    pub fn next(&mut self, index: &BookmarkIndex) -> (batch: Result<
        Option<Vec<(RoomId, IndexedBookmark)>>,
        IndexError,
    >)
        requires
            index.wf(),
            old(self).wf(),
            round_fits(old(self)@),
        ensures
            final(self).wf(),
            !search_needed(old(self)@) ==> match batch {
                Ok(None) => old(self)@.rooms.len() == 0 && final(self)@ == old(self)@,
                Ok(Some(entries)) => {
                    let count = old(self)@.num_results_per_batch as int;
                    &&& old(self)@.rooms.len() > 0
                    &&& entry_views(entries@) == old(self)@.batch.take(count)
                    &&& final(self)@ == (GlobalSearch {
                        batch: old(self)@.batch.skip(count),
                        ..old(self)@
                    })
                },
                Err(_) => false,
            },
            search_needed(old(self)@) ==> match batch {
                Ok(found) => {
                    &&& readable(index.parser(), old(self)@.query)
                    &&& found matches Some(entries) ==> entries@.len() > 0
                    &&& exists|fetched: Seq<Seq<Found>>| #[trigger]
                        round(*index, old(self)@, fetched, handed_out(found), final(self)@)
                },
                Err(error) => {
                    &&& error is QueryTooDeep <==> !is_wildcard(old(self)@.query) && !is_shallow(
                        old(self)@.query,
                    )
                    &&& error is QueryParserError <==> is_shallow(old(self)@.query) && !readable(
                        index.parser(),
                        old(self)@.query,
                    )
                    &&& {
                        ||| error is QueryTooDeep
                        ||| error is QueryParserError
                        ||| error is TantivyError
                        ||| error is IdParsing && !index@.committed.private
                    }
                    &&& exists|fetched: Seq<Seq<Found>>| #[trigger]
                        failed_round(*index, old(self)@, fetched, final(self)@)
                },
            },
            batch matches Ok(None) ==> final(self)@.rooms.len() == 0,
            batch matches Ok(found) ==> by_relevance(handed_out(found)),
    {
        if !self.needs_search() {
            return Ok(self.next_buffered());
        }
        let ghost before = self@;
        let ghost mut fetched: Seq<Seq<Found>> = Seq::empty();
        let mut exhausted = StringHashSet::new();
        let mut i: usize = 0;
        let mut is_enough = false;
        proof {
            assert(moved_rooms(before.rooms, fetched) =~= before.rooms);
            assert(before.batch + fetched_entries(before.rooms, fetched) =~= before.batch);
            assert(exhausted_rooms(before.rooms, fetched) =~= Set::empty());
        }
        while !is_enough && i < self.room_state.len()
            invariant
                index.wf(),
                before == old(self)@,
                global_wf(before),
                round_fits(before),
                search_needed(before),
                i <= before.rooms.len(),
                fetched.len() == i,
                fetches(*index, before, fetched),
                is_enough == enough(before, fetched),
                i > 0 ==> readable(index.parser(), before.query),
                self.room_state@.len() == before.rooms.len(),
                self@ == (GlobalSearch {
                    rooms: moved_rooms(before.rooms, fetched),
                    batch: self@.batch,
                    ..before
                }),
                by_relevance(self@.batch),
                same_entries(
                    self@.batch,
                    before.batch + fetched_entries(before.rooms, fetched),
                ),
                exhausted@ == exhausted_rooms(before.rooms, fetched),
            decreases before.rooms.len() - i,
        {
            proof {
                assert(self@.rooms[i as int] == self.room_state@[i as int]@);
                assert(self@.rooms[i as int] == before.rooms[i as int]);
                assert(page_fits(before.num_results_per_batch, before.rooms[i as int].offset));
            }
            let results = match self.room_state[i].room.search_room_bookmarks(
                index,
                self.query.as_str(),
                self.num_results_per_batch,
                self.room_state[i].offset,
            ) {
                Ok(results) => results,
                Err(error) => {
                    proof {
                        assert(failed_round(*index, before, fetched, self@));
                        lemma_failed_round_wf(*index, before, fetched, self@);
                    }
                    return Err(error);
                },
            };
            let ghost views = found_views(results@);
            proof {
                law_results_are_bounded(
                    index@.committed,
                    search_clauses(index.parser(), before.query, Some(before.rooms[i as int].room_id)),
                    start_of(before.rooms[i as int].offset),
                    before.num_results_per_batch as int,
                    views,
                );
                lemma_fetches_push(*index, before, fetched, views);
                lemma_fetched_push(before, fetched, views);
            }
            let ghost pool = before.batch + fetched_entries(before.rooms, fetched);
            let ghost room_id = before.rooms[i as int].room_id;
            let ghost buffered = self@.batch;
            if results.len() == 0 {
                exhausted.insert(self.room_state[i].room.room_id.as_str().to_owned());
                proof {
                    assert(entries_of(room_id, views) =~= Seq::empty());
                    assert(pool + entries_of(room_id, views) =~= pool);
                    assert(before.batch + fetched_entries(before.rooms, fetched.push(views))
                        =~= pool);
                }
            } else {
                self.absorb(i, results);
                proof {
                    broadcast use group_to_multiset_ensures;

                    lemma_multiset_commutative(buffered, entries_of(room_id, views));
                    lemma_multiset_commutative(pool, entries_of(room_id, views));
                    assert(before.batch + fetched_entries(before.rooms, fetched.push(views))
                        =~= pool + entries_of(room_id, views));
                }
                is_enough = self.current_batch.len() >= self.num_results_per_batch;
            }
            proof {
                broadcast use group_to_multiset_ensures;

                let more = before.batch + fetched_entries(before.rooms, fetched.push(views));
                assert(self@.batch.to_multiset().len() == more.to_multiset().len());
                assert(self@.batch.len() == more.len());
                assert(self@.rooms.len() == self.room_state@.len());
                fetched = fetched.push(views);
            }
            i += 1;
        }
        self.drop_rooms(&exhausted);
        let ghost buffered = self@.batch;
        let ghost pool = before.batch + fetched_entries(before.rooms, fetched);
        proof {
            broadcast use group_to_multiset_ensures;

            assert(buffered.to_multiset().len() == pool.to_multiset().len());
            assert(buffered.len() == pool.len());
            let keep = |room: RoomProgress| !exhausted@.contains(room.room_id);
            let keep_also = |room: RoomProgress|
                !exhausted_rooms(before.rooms, fetched).contains(room.room_id);
            assert(keep =~= keep_also);
            assert(self@.rooms == remaining_rooms(before.rooms, fetched));
        }
        if self.current_batch.len() > 0 {
            let high: usize = if self.num_results_per_batch < self.current_batch.len() {
                self.num_results_per_batch
            } else {
                self.current_batch.len()
            };
            let front = self.take_front(high);
            proof {
                let out = entry_views(front@);
                assert(out + self@.batch =~= buffered);
                assert(round(*index, before, fetched, out, self@));
                lemma_round_wf(*index, before, fetched, out, self@);
                assert forall|k: int, j: int| 0 <= k < j < out.len() implies score_rank(
                    (#[trigger] out[k]).found.score,
                ) >= score_rank((#[trigger] out[j]).found.score) by {
                    assert(out[k] == buffered[k] && out[j] == buffered[j]);
                }
                assert(handed_out(Some(front)) == out);
            }
            Ok(Some(front))
        } else {
            proof {
                let out = Seq::<Entry>::empty();
                assert(out + self@.batch =~= buffered);
                assert(round(*index, before, fetched, out, self@));
                lemma_round_wf(*index, before, fetched, out, self@);
                assert(handed_out(None) == out);
            }
            Ok(None)
        }
    }
}

/// What a batch hands out.
pub open spec fn handed_out(batch: Option<Vec<(RoomId, IndexedBookmark)>>) -> Seq<Entry> {
    match batch {
        Some(entries) => entry_views(entries@),
        None => Seq::empty(),
    }
}

/// Whether the next batch takes a round of searches: rooms are left, and less than a batch is
/// buffered.
pub open spec fn search_needed(search: GlobalSearch) -> bool {
    search.rooms.len() > 0 && search.batch.len() < search.num_results_per_batch
}

/// A round that fails keeps the rules of the state.
pub proof fn lemma_failed_round_wf(
    index: BookmarkIndex,
    before: GlobalSearch,
    fetched: Seq<Seq<Found>>,
    after: GlobalSearch,
)
    requires
        global_wf(before),
        failed_round(index, before, fetched, after),
    ensures
        global_wf(after),
{
    assert forall|i: int, j: int| 0 <= i < j < after.rooms.len() implies (
    #[trigger] after.rooms[i]).room_id != (#[trigger] after.rooms[j]).room_id by {
        assert(after.rooms[i].room_id == before.rooms[i].room_id);
        assert(after.rooms[j].room_id == before.rooms[j].room_id);
    }
}

/// The current versions of events that were loaded, with their rooms. What could not be loaded because
/// the room is not known is left out.
pub open spec fn current_in_rooms<T>(loaded: Seq<(RoomId, Option<(T, Vec<T>)>)>) -> Seq<(RoomId, T)>
    decreases loaded.len(),
{
    if loaded.len() == 0 {
        Seq::empty()
    } else {
        let before = current_in_rooms(loaded.drop_last());
        match loaded.last().1 {
            Some((original, replacements)) => before.push(
                (loaded.last().0, current(original, replacements@)),
            ),
            None => before,
        }
    }
}

/// The current versions of events that were loaded, with their rooms.
pub fn latest_in_rooms<T>(loaded: Vec<(RoomId, Option<(T, Vec<T>)>)>) -> (events: Vec<(RoomId, T)>)
    ensures
        events@ == current_in_rooms(loaded@),
{
    let ghost all = loaded@;
    let mut events: Vec<(RoomId, T)> = Vec::new();
    assert(all.take(0) =~= Seq::empty());
    for entry in entries: loaded.into_iter()
        invariant
            entries.seq() == all,
            events@ == current_in_rooms(all.take(entries.index() as int)),
    {
        let ghost k = entries.index() as int;
        assert(all.take(k + 1).drop_last() =~= all.take(k));
        assert(all.take(k + 1).last() == entry);
        if let Some((original, replacements)) = entry.1 {
            events.push((entry.0, latest_version(original, replacements)));
        }
    }
    assert(all.take(all.len() as int) =~= all);
    events
}

} // verus!
