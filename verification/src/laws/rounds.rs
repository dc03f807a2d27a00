//! What one batch of a search across rooms brings.

use vstd::prelude::*;
use vstd::seq_lib::lemma_multiset_commutative;

use crate::bookmark::{Found, IndexedBookmark};
use crate::engine::query_parses;
use crate::error::IndexError;
use crate::global::{
    enough, entries_of, entry_views, exhausted_rooms, failed_round, fetched_entries, global_wf,
    handed_out, moved_rooms, round, Entry, GlobalBookmarkSearchIterator,
    GlobalSearch, RoomProgress,
};
use crate::ids::{score_rank, RoomId};
use crate::index::{search_clauses, start_of, BookmarkIndex};
use crate::laws::rooms::{lemma_picks_one_more, picks};
use crate::model::answers;
use crate::nesting::is_shallow;
use crate::search::moved_on;

verus! {

/// The results of each room, with the room.
pub open spec fn by_room(rooms: Seq<RoomProgress>, fetched: Seq<Seq<Found>>) -> Seq<Seq<Entry>> {
    Seq::new(
        fetched.len(),
        |i: int|
            Seq::new(
                fetched[i].len(),
                |k: int| Entry { room_id: rooms[i].room_id, found: fetched[i][k] },
            ),
    )
}

/// What is fetched is what each room brought, room by room.
proof fn lemma_by_room(rooms: Seq<RoomProgress>, fetched: Seq<Seq<Found>>)
    ensures
        fetched_entries(rooms, fetched) == by_room(rooms, fetched).flatten(),
    decreases fetched.len(),
{
    let all = by_room(rooms, fetched);
    all.lemma_flatten_and_flatten_alt_are_equivalent();
    if fetched.len() == 0 {
        assert(all =~= Seq::empty());
    } else {
        let fewer = fetched.drop_last();
        lemma_by_room(rooms, fewer);
        by_room(rooms, fewer).lemma_flatten_and_flatten_alt_are_equivalent();
        assert(all.drop_last() =~= by_room(rooms, fewer)) by {
            assert forall|i: int| 0 <= i < fewer.len() implies #[trigger] all.drop_last()[i]
                == by_room(rooms, fewer)[i] by {
                assert(all.drop_last()[i] =~= by_room(rooms, fewer)[i]);
            }
        }
        assert(all.last() =~= entries_of(rooms[fetched.len() - 1].room_id, fetched.last()));
    }
}

/// A filtered list is made of the items that pass, at their positions.
proof fn lemma_filter_positions<T>(list: Seq<T>, passes: spec_fn(T) -> bool) -> (positions: Seq<int>)
    ensures
        picks(list, list.filter(passes), positions),
        forall|i: int| #[trigger]
            positions.contains(i) <==> 0 <= i < list.len() && passes(list[i]),
    decreases list.len(),
{
    reveal(Seq::filter);
    if list.len() == 0 {
        Seq::empty()
    } else {
        let n = list.len() - 1;
        let rest = list.drop_last();
        let fewer = lemma_filter_positions(rest, passes);
        assert(list =~= rest.push(list.last()));
        lemma_picks_one_more(rest, rest.filter(passes), fewer, list.last());
        assert(!fewer.contains(n));
        if passes(list[n]) {
            fewer.push(n)
        } else {
            fewer
        }
    }
}

// ---------------------------------------------------------------------------------------------
// A round of searches
// ---------------------------------------------------------------------------------------------

/// Every search of a round is one in a room of the search, in their order, for its query, from where
/// the search in that room had come.
pub proof fn law_rooms_are_searched_in_order(
    index: BookmarkIndex,
    before: GlobalSearch,
    fetched: Seq<Seq<Found>>,
    out: Seq<Entry>,
    after: GlobalSearch,
    i: int,
)
    requires
        round(index, before, fetched, out, after) || failed_round(index, before, fetched, after),
        0 <= i < fetched.len(),
    ensures
        i < before.rooms.len(),
        answers(
            index@.committed,
            search_clauses(index.parser(), before.query, Some(before.rooms[i].room_id)),
            match before.rooms[i].offset {
                Some(offset) => offset as int,
                None => 0,
            },
            before.num_results_per_batch as int,
            fetched[i],
        ),
{
}

/// A round goes on through the rooms until there is enough for a batch, and no farther: it ends before
/// the last room only once a room brought results and there are as many as make a batch, and it ends
/// with the first such room.
pub proof fn law_round_ends_once_there_is_enough(
    index: BookmarkIndex,
    before: GlobalSearch,
    fetched: Seq<Seq<Found>>,
    out: Seq<Entry>,
    after: GlobalSearch,
    k: int,
)
    requires
        round(index, before, fetched, out, after),
        0 < k <= fetched.len(),
        fetched[k - 1].len() > 0,
    ensures
        fetched.len() < before.rooms.len() ==> {
            &&& fetched.len() > 0
            &&& fetched[fetched.len() - 1].len() > 0
            &&& before.batch.len() + by_room(before.rooms, fetched).flatten().len()
                >= before.num_results_per_batch
        },
        k < fetched.len() ==> before.batch.len() + by_room(
            before.rooms,
            fetched.take(k),
        ).flatten().len() < before.num_results_per_batch,
{
    lemma_by_room(before.rooms, fetched);
    lemma_by_room(before.rooms, fetched.take(k));
    if k < fetched.len() {
        assert(!enough(before, fetched.take(k)));
        assert(fetched.take(k).last() == fetched[k - 1]);
    }
}

/// A round hands out a full batch where there is one, and all there is otherwise. What it hands out and
/// what it keeps is what was buffered and what the rooms brought, nothing more and nothing less.
pub proof fn law_round_keeps_what_it_does_not_hand_out(
    index: BookmarkIndex,
    before: GlobalSearch,
    fetched: Seq<Seq<Found>>,
    out: Seq<Entry>,
    after: GlobalSearch,
    entry: Entry,
)
    requires
        round(index, before, fetched, out, after),
    ensures
        ({
            let brought = by_room(before.rooms, fetched).flatten();
            &&& before.batch.len() + brought.len() >= before.num_results_per_batch ==> out.len()
                == before.num_results_per_batch
            &&& before.batch.len() + brought.len() < before.num_results_per_batch ==> out.len()
                == before.batch.len() + brought.len()
            &&& out.to_multiset().count(entry) + after.batch.to_multiset().count(entry)
                == before.batch.to_multiset().count(entry) + brought.to_multiset().count(entry)
        }),
        after.query == before.query,
        after.num_results_per_batch == before.num_results_per_batch,
{
    let brought = fetched_entries(before.rooms, fetched);
    lemma_by_room(before.rooms, fetched);
    lemma_multiset_commutative(out, after.batch);
    lemma_multiset_commutative(before.batch, brought);
    assert((out + after.batch).to_multiset() == (before.batch + brought).to_multiset());
    assert((out + after.batch).to_multiset().count(entry) == out.to_multiset().count(entry)
        + after.batch.to_multiset().count(entry));
    assert((before.batch + brought).to_multiset().count(entry) == before.batch.to_multiset().count(
        entry,
    ) + brought.to_multiset().count(entry));
}

/// A round hands out the most relevant results first, and none that is less relevant than one that it
/// keeps.
pub proof fn law_round_hands_out_the_most_relevant(
    index: BookmarkIndex,
    before: GlobalSearch,
    fetched: Seq<Seq<Found>>,
    out: Seq<Entry>,
    after: GlobalSearch,
)
    requires
        round(index, before, fetched, out, after),
    ensures
        forall|i: int, j: int|
            0 <= i < j < out.len() ==> score_rank((#[trigger] out[i]).found.score) >= score_rank(
                (#[trigger] out[j]).found.score,
            ),
        forall|i: int, j: int|
            0 <= i < out.len() && 0 <= j < after.batch.len() ==> score_rank(
                (#[trigger] out[i]).found.score,
            ) >= score_rank((#[trigger] after.batch[j]).found.score),
        forall|i: int, j: int|
            0 <= i < j < after.batch.len() ==> score_rank((#[trigger] after.batch[i]).found.score)
                >= score_rank((#[trigger] after.batch[j]).found.score),
{
    let all = out + after.batch;
    assert forall|i: int, j: int| 0 <= i < j < out.len() implies score_rank(
        (#[trigger] out[i]).found.score,
    ) >= score_rank((#[trigger] out[j]).found.score) by {
        assert(all[i] == out[i] && all[j] == out[j]);
    }
    assert forall|i: int, j: int| 0 <= i < out.len() && 0 <= j < after.batch.len() implies score_rank(
        (#[trigger] out[i]).found.score,
    ) >= score_rank((#[trigger] after.batch[j]).found.score) by {
        assert(all[i] == out[i] && all[out.len() + j] == after.batch[j]);
    }
    assert forall|i: int, j: int| 0 <= i < j < after.batch.len() implies score_rank(
        (#[trigger] after.batch[i]).found.score,
    ) >= score_rank((#[trigger] after.batch[j]).found.score) by {
        assert(all[out.len() + i] == after.batch[i] && all[out.len() + j] == after.batch[j]);
    }
}

/// An offset moves on by as many results as there were.
pub proof fn law_offset_moves_past_the_results(offset: Option<usize>, count: nat)
    requires
        (match offset {
            Some(start) => start as int,
            None => 0,
        }) + count <= usize::MAX,
    ensures
        moved_on(offset, count) matches Some(next) && next == (match offset {
            Some(start) => start as int,
            None => 0,
        }) + count,
{
}

/// After a round exactly those rooms are left that did not turn out to have no more results, in their
/// order, and the search in each goes on after what it brought.
pub proof fn law_round_drops_only_empty_rooms(
    index: BookmarkIndex,
    before: GlobalSearch,
    fetched: Seq<Seq<Found>>,
    out: Seq<Entry>,
    after: GlobalSearch,
) -> (positions: Seq<int>)
    requires
        global_wf(before),
        round(index, before, fetched, out, after),
    ensures
        after.rooms.len() == positions.len(),
        forall|k: int, l: int|
            0 <= k < l < positions.len() ==> #[trigger] positions[k] < #[trigger] positions[l],
        forall|i: int| #[trigger]
            positions.contains(i) <==> 0 <= i < before.rooms.len() && !(i < fetched.len()
                && fetched[i].len() == 0),
        forall|k: int|
            0 <= k < positions.len() ==> {
                let i = #[trigger] positions[k];
                &&& 0 <= i < before.rooms.len()
                &&& after.rooms[k].room_id == before.rooms[i].room_id
                &&& i >= fetched.len() ==> after.rooms[k].offset == before.rooms[i].offset
                &&& i < fetched.len() ==> after.rooms[k].offset == moved_on(
                    before.rooms[i].offset,
                    fetched[i].len(),
                )
            },
{
    let rooms = before.rooms;
    let moved = moved_rooms(rooms, fetched);
    let keep = |room: RoomProgress| !exhausted_rooms(rooms, fetched).contains(room.room_id);
    let positions = lemma_filter_positions(moved, keep);
    assert(after.rooms == moved.filter(keep));
    assert forall|i: int| #[trigger] positions.contains(i) <==> 0 <= i < rooms.len() && !(i
        < fetched.len() && fetched[i].len() == 0) by {
        if 0 <= i < rooms.len() {
            assert(moved[i].room_id == rooms[i].room_id);
            if i < fetched.len() && fetched[i].len() == 0 {
                assert(exhausted_rooms(rooms, fetched).contains(rooms[i].room_id));
            }
            if exhausted_rooms(rooms, fetched).contains(rooms[i].room_id) {
                let j = choose|j: int|
                    0 <= j < fetched.len() && (#[trigger] fetched[j]).len() == 0
                        && rooms[j].room_id == rooms[i].room_id;
                assert(rooms[j].room_id == rooms[i].room_id);
                assert(j == i);
            }
        }
    }
    assert forall|k: int| 0 <= k < positions.len() implies {
        let i = #[trigger] positions[k];
        &&& 0 <= i < rooms.len()
        &&& after.rooms[k].room_id == rooms[i].room_id
        &&& i >= fetched.len() ==> after.rooms[k].offset == rooms[i].offset
        &&& i < fetched.len() ==> after.rooms[k].offset == moved_on(
            rooms[i].offset,
            fetched[i].len(),
        )
    } by {
        let i = positions[k];
        assert(positions.contains(i));
        assert(after.rooms[k] == moved[i]);
    }
    positions
}

/// A round that fails drops no room and loses no result: what the rooms brought is buffered with what
/// was, the most relevant first, and the search in each goes on after what it brought.
pub proof fn law_failed_round_buffers_what_was_brought(
    index: BookmarkIndex,
    before: GlobalSearch,
    fetched: Seq<Seq<Found>>,
    after: GlobalSearch,
    entry: Entry,
    i: int,
)
    requires
        failed_round(index, before, fetched, after),
        0 <= i < before.rooms.len(),
    ensures
        after.batch.to_multiset().count(entry) == before.batch.to_multiset().count(entry) + by_room(
            before.rooms,
            fetched,
        ).flatten().to_multiset().count(entry),
        forall|j: int, k: int|
            0 <= j < k < after.batch.len() ==> score_rank((#[trigger] after.batch[j]).found.score)
                >= score_rank((#[trigger] after.batch[k]).found.score),
        after.rooms.len() == before.rooms.len(),
        after.rooms[i].room_id == before.rooms[i].room_id,
        i < fetched.len() && fetched[i].len() > 0 ==> after.rooms[i].offset == moved_on(
            before.rooms[i].offset,
            fetched[i].len(),
        ),
        i >= fetched.len() || fetched[i].len() == 0 ==> after.rooms[i].offset
            == before.rooms[i].offset,
        after.query == before.query,
        after.num_results_per_batch == before.num_results_per_batch,
        fetched.len() < before.rooms.len(),
{
    lemma_by_room(before.rooms, fetched);
    lemma_multiset_commutative(before.batch, fetched_entries(before.rooms, fetched));
}

// ---------------------------------------------------------------------------------------------
// A batch
// ---------------------------------------------------------------------------------------------

/// Results are listed one by one, each with its room.
pub proof fn law_entries_are_listed(entries: Vec<(RoomId, IndexedBookmark)>, i: int)
    requires
        0 <= i < entries@.len(),
    ensures
        entry_views(entries@).len() == entries@.len(),
        entry_views(entries@)[i].room_id == entries@[i].0@,
        entry_views(entries@)[i].found == entries@[i].1@,
        handed_out(Some(entries)) == entry_views(entries@),
        handed_out(None).len() == 0,
{
}

/// A batch takes a round of searches if and only if rooms are left and less than a batch is buffered.
/// The searches can be made where the next page of every room can be asked for.
pub proof fn law_search_across_rooms_tells_where_it_is(
    iterator: GlobalBookmarkSearchIterator,
    needed: bool,
    fits: bool,
)
    requires
        call_ensures(GlobalBookmarkSearchIterator::needs_search, (&iterator,), needed),
        call_ensures(GlobalBookmarkSearchIterator::can_continue, (&iterator,), fits),
    ensures
        needed <==> iterator@.rooms.len() > 0 && iterator@.batch.len()
            < iterator@.num_results_per_batch,
        fits <==> (iterator@.batch.len() < iterator@.num_results_per_batch ==> forall|i: int|
            0 <= i < iterator@.rooms.len() ==> (match (#[trigger] iterator@.rooms[i]).offset {
                Some(offset) => offset as int,
                None => 0,
            }) + iterator@.num_results_per_batch <= usize::MAX / 64),
{
    if forall|i: int|
        0 <= i < iterator@.rooms.len() ==> (match (#[trigger] iterator@.rooms[i]).offset {
            Some(offset) => offset as int,
            None => 0,
        }) + iterator@.num_results_per_batch <= usize::MAX / 64 {
        assert forall|i: int| 0 <= i < iterator@.rooms.len() implies start_of(
            (#[trigger] iterator@.rooms[i]).offset,
        ) + iterator@.num_results_per_batch <= usize::MAX / 64 by {}
    }
}

/// Where enough is buffered, a batch is the front of it, and the rest stays buffered. Where no room is
/// left there is no batch.
pub proof fn law_batch_is_the_front_of_the_buffer(
    iterator: &mut GlobalBookmarkSearchIterator,
    index: &BookmarkIndex,
    batch: Option<Vec<(RoomId, IndexedBookmark)>>,
)
    requires
        old(iterator)@.rooms.len() == 0 || old(iterator)@.batch.len()
            >= old(iterator)@.num_results_per_batch,
        call_ensures(GlobalBookmarkSearchIterator::next_buffered, (iterator,), batch)
            || call_ensures(
            GlobalBookmarkSearchIterator::next,
            (iterator, index),
            Ok::<Option<Vec<(RoomId, IndexedBookmark)>>, IndexError>(batch),
        ),
    ensures
        batch is None <==> old(iterator)@.rooms.len() == 0,
        batch matches Some(entries) ==> {
            let n = old(iterator)@.num_results_per_batch as int;
            &&& entries@.len() == n
            &&& forall|i: int|
                0 <= i < n ==> (#[trigger] entries@[i]).0@ == old(iterator)@.batch[i].room_id
                    && entries@[i].1@ == old(iterator)@.batch[i].found
            &&& final(iterator)@.batch == old(iterator)@.batch.subrange(
                n,
                old(iterator)@.batch.len() as int,
            )
        },
        batch is None ==> final(iterator)@.batch == old(iterator)@.batch,
        final(iterator)@.rooms == old(iterator)@.rooms,
        final(iterator)@.query == old(iterator)@.query,
        final(iterator)@.num_results_per_batch == old(iterator)@.num_results_per_batch,
{
    if let Some(entries) = batch {
        let n = old(iterator)@.num_results_per_batch as int;
        assert(entry_views(entries@) == old(iterator)@.batch.take(n));
        assert(entries@.len() == entry_views(entries@).len());
        assert forall|i: int| 0 <= i < n implies (#[trigger] entries@[i]).0@
            == old(iterator)@.batch[i].room_id && entries@[i].1@
            == old(iterator)@.batch[i].found by {
            assert(entry_views(entries@)[i] == old(iterator)@.batch.take(n)[i]);
        }
    }
}

/// Where less than a batch is buffered and rooms are left, a batch takes a round of searches. It is not
/// empty, and there is none only once no room is left. It fails because of the query if and only if the
/// query, other than nothing and an asterisk, is nested too deeply or cannot be read.
pub proof fn law_batch_takes_a_round(
    iterator: &mut GlobalBookmarkSearchIterator,
    index: &BookmarkIndex,
    batch: Result<Option<Vec<(RoomId, IndexedBookmark)>>, IndexError>,
)
    requires
        old(iterator)@.rooms.len() > 0,
        old(iterator)@.batch.len() < old(iterator)@.num_results_per_batch,
        call_ensures(GlobalBookmarkSearchIterator::next, (iterator, index), batch),
    ensures
        batch matches Ok(found) ==> {
            &&& exists|fetched: Seq<Seq<Found>>| #[trigger]
                round(*index, old(iterator)@, fetched, handed_out(found), final(iterator)@)
            &&& found matches Some(entries) ==> entries@.len() > 0
            &&& found is None ==> final(iterator)@.rooms.len() == 0
        },
        batch matches Err(error) ==> {
            &&& exists|fetched: Seq<Seq<Found>>| #[trigger]
                failed_round(*index, old(iterator)@, fetched, final(iterator)@)
            &&& error is QueryTooDeep ==> !is_shallow(old(iterator)@.query)
            &&& error is QueryParserError ==> !query_parses(index.parser(), old(iterator)@.query)
            &&& error is QueryTooDeep || error is QueryParserError ==> old(iterator)@.query.len()
                > 0 && old(iterator)@.query != "*"@
        },
        batch is Ok && old(iterator)@.query.len() > 0 && old(iterator)@.query != "*"@
            ==> is_shallow(old(iterator)@.query) && query_parses(
            index.parser(),
            old(iterator)@.query,
        ),
{
}

} // verus!
