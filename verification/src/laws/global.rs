//! What a search across rooms hands out, from the first batch to the last.

use vstd::multiset::Multiset;
use vstd::prelude::*;
use vstd::seq_lib::{group_to_multiset_ensures, lemma_multiset_commutative};

use crate::bookmark::Found;
use crate::engine::page;
use crate::global::{
    entries_of, exhausted_rooms, failed_round, fetched_entries, global_wf, lemma_failed_round_wf,
    lemma_round_wf, moved_rooms, round, round_fits, search_needed, Entry, GlobalSearch,
    RoomProgress,
};
use crate::index::{page_fits, search_clauses, start_of, BookmarkIndex};
use crate::laws::search::{
    is_plain_query, law_list_is_complete, law_results_are_of_one_list, law_search_is_exhaustive,
    matches_in, ranked_as,
};
use crate::model::lists;
use crate::search::moved_on;

verus! {

/// Whether a batch leads from one state to the next: it fetches lists of results, one for each of the
/// first rooms, and hands some results out. A batch that takes no search hands out what is buffered.
pub open spec fn turn(
    index: BookmarkIndex,
    before: GlobalSearch,
    lists: Seq<Seq<Found>>,
    out: Seq<Entry>,
    after: GlobalSearch,
) -> bool {
    if search_needed(before) {
        round(index, before, lists, out, after)
    } else {
        &&& before.rooms.len() > 0
        &&& lists.len() == 0
        &&& out == before.batch.take(before.num_results_per_batch as int)
        &&& after == (GlobalSearch {
            batch: before.batch.skip(before.num_results_per_batch as int),
            ..before
        })
    }
}

/// Whether a batch leads from one state to the next, or fails to and hands nothing out.
pub open spec fn attempt(
    index: BookmarkIndex,
    before: GlobalSearch,
    lists: Seq<Seq<Found>>,
    out: Seq<Entry>,
    after: GlobalSearch,
) -> bool {
    ||| turn(index, before, lists, out, after)
    ||| {
        &&& search_needed(before)
        &&& failed_round(index, before, lists, after)
        &&& out.len() == 0
    }
}

/// Whether batches, some of which may fail, lead through a list of states. The index may change in
/// between.
pub open spec fn attempts(
    indexes: Seq<BookmarkIndex>,
    states: Seq<GlobalSearch>,
    lists: Seq<Seq<Seq<Found>>>,
    out: Seq<Seq<Entry>>,
) -> bool {
    &&& states.len() == out.len() + 1
    &&& lists.len() == out.len()
    &&& indexes.len() == out.len()
    &&& forall|i: int|
        0 <= i < out.len() ==> attempt(
            indexes[i],
            states[i],
            lists[i],
            #[trigger] out[i],
            states[i + 1],
        )
}

/// What each batch fetched.
pub open spec fn fetched_by(states: Seq<GlobalSearch>, lists: Seq<Seq<Seq<Found>>>) -> Seq<Seq<Entry>> {
    Seq::new(lists.len(), |i: int| fetched_entries(states[i].rooms, lists[i]))
}

/// All results of a list of lists.
pub open spec fn all_of(lists: Seq<Seq<Entry>>) -> Multiset<Entry>
    decreases lists.len(),
{
    if lists.len() == 0 {
        Multiset::empty()
    } else {
        all_of(lists.drop_last()).add(lists.last().to_multiset())
    }
}

/// A batch that fails loses and repeats nothing: what it fetched is buffered with what was, and the
/// search in each room goes on after it.
pub proof fn law_failed_batch_loses_and_repeats_nothing(
    index: BookmarkIndex,
    before: GlobalSearch,
    lists: Seq<Seq<Found>>,
    after: GlobalSearch,
)
    requires
        global_wf(before),
        failed_round(index, before, lists, after),
    ensures
        global_wf(after),
        after.batch.to_multiset() == before.batch.to_multiset().add(
            fetched_entries(before.rooms, lists).to_multiset(),
        ),
        after.rooms.len() == before.rooms.len(),
        forall|i: int|
            0 <= i < before.rooms.len() ==> {
                &&& (#[trigger] after.rooms[i]).room_id == before.rooms[i].room_id
                &&& after.rooms[i].offset == if i < lists.len() && lists[i].len() > 0 {
                    moved_on(before.rooms[i].offset, lists[i].len())
                } else {
                    before.rooms[i].offset
                }
            },
{
    lemma_failed_round_wf(index, before, lists, after);
    lemma_multiset_commutative(before.batch, fetched_entries(before.rooms, lists));
}

/// One batch keeps the rules of the state, and what it hands out and buffers is what was buffered and
/// what it fetched.
proof fn lemma_attempt(
    index: BookmarkIndex,
    before: GlobalSearch,
    lists: Seq<Seq<Found>>,
    out: Seq<Entry>,
    after: GlobalSearch,
)
    requires
        global_wf(before),
        attempt(index, before, lists, out, after),
    ensures
        global_wf(after),
        after.num_results_per_batch == before.num_results_per_batch,
        out.to_multiset().add(after.batch.to_multiset()) == before.batch.to_multiset().add(
            fetched_entries(before.rooms, lists).to_multiset(),
        ),
{
    broadcast use group_to_multiset_ensures;

    let fetched = fetched_entries(before.rooms, lists);
    if search_needed(before) {
        if round(index, before, lists, out, after) {
            lemma_round_wf(index, before, lists, out, after);
            lemma_multiset_commutative(out, after.batch);
            lemma_multiset_commutative(before.batch, fetched);
        } else {
            law_failed_batch_loses_and_repeats_nothing(index, before, lists, after);
            assert(out =~= Seq::<Entry>::empty());
            assert(out.to_multiset() =~= Multiset::empty());
            assert(out.to_multiset().add(after.batch.to_multiset())
                =~= after.batch.to_multiset());
        }
    } else {
        let count = before.num_results_per_batch as int;
        assert(out + after.batch =~= before.batch);
        lemma_multiset_commutative(out, after.batch);
        assert(fetched =~= Seq::<Entry>::empty());
        assert(fetched.to_multiset() =~= Multiset::empty());
        assert(before.batch.to_multiset().add(fetched.to_multiset())
            =~= before.batch.to_multiset());
    }
}

/// Nothing that a search across rooms fetches is lost, handed out twice or made up: whatever number of
/// batches there were, and whichever of them failed, what was handed out and what is buffered is what
/// was fetched.
pub proof fn law_results_are_conserved(
    indexes: Seq<BookmarkIndex>,
    states: Seq<GlobalSearch>,
    lists: Seq<Seq<Seq<Found>>>,
    out: Seq<Seq<Entry>>,
)
    requires
        attempts(indexes, states, lists, out),
        global_wf(states[0]),
        states[0].batch.len() == 0,
    ensures
        global_wf(states.last()),
        states.last().num_results_per_batch == states[0].num_results_per_batch,
        all_of(out).add(states.last().batch.to_multiset()) == all_of(fetched_by(states, lists)),
    decreases out.len(),
{
    broadcast use group_to_multiset_ensures;

    let fetched = fetched_by(states, lists);
    if out.len() == 0 {
        assert(states[0].batch =~= Seq::<Entry>::empty());
        assert(all_of(out).add(states.last().batch.to_multiset()) =~= all_of(fetched));
    } else {
        let n = out.len() - 1;
        let states_less = states.drop_last();
        let out_less = out.drop_last();
        let lists_less = lists.drop_last();
        let indexes_less = indexes.drop_last();
        lemma_attempts_less(indexes, states, lists, out);
        law_results_are_conserved(indexes_less, states_less, lists_less, out_less);
        assert(attempt(indexes[n], states[n], lists[n], out[n], states[n + 1]));
        lemma_attempt(indexes[n], states[n], lists[n], out[n], states[n + 1]);
        let held = states[n].batch.to_multiset();
        let left = states[n + 1].batch.to_multiset();
        let given = out[n].to_multiset();
        let got = fetched[n].to_multiset();
        let fetched_less = fetched_by(states_less, lists_less);
        assert(fetched.drop_last() =~= fetched_less);
        assert(states_less.last() == states[n]);
        assert(all_of(out) == all_of(out_less).add(given));
        assert(all_of(fetched) == all_of(fetched_less).add(got));
        assert forall|entry: Entry| all_of(out).add(left).count(entry) == #[trigger] all_of(
            fetched,
        ).count(entry) by {
            assert(given.add(left).count(entry) == held.add(got).count(entry));
            assert(all_of(out_less).add(held).count(entry) == all_of(fetched_less).count(entry));
        }
        assert(all_of(out).add(states.last().batch.to_multiset()) =~= all_of(fetched));
    }
}

/// All batches but the last are batches.
proof fn lemma_attempts_less(
    indexes: Seq<BookmarkIndex>,
    states: Seq<GlobalSearch>,
    lists: Seq<Seq<Seq<Found>>>,
    out: Seq<Seq<Entry>>,
)
    requires
        attempts(indexes, states, lists, out),
        out.len() > 0,
    ensures
        attempts(indexes.drop_last(), states.drop_last(), lists.drop_last(), out.drop_last()),
{
    let out_less = out.drop_last();
    assert forall|i: int| 0 <= i < out_less.len() implies attempt(
        indexes.drop_last()[i],
        states.drop_last()[i],
        lists.drop_last()[i],
        #[trigger] out_less[i],
        states.drop_last()[i + 1],
    ) by {
        assert(out_less[i] == out[i]);
    }
}

/// A search across rooms that has come to its end has handed out everything that it fetched.
pub proof fn law_all_results_are_handed_out(
    indexes: Seq<BookmarkIndex>,
    states: Seq<GlobalSearch>,
    lists: Seq<Seq<Seq<Found>>>,
    out: Seq<Seq<Entry>>,
)
    requires
        attempts(indexes, states, lists, out),
        global_wf(states[0]),
        states[0].batch.len() == 0,
        states.last().rooms.len() == 0,
    ensures
        all_of(out) == all_of(fetched_by(states, lists)),
{
    broadcast use group_to_multiset_ensures;

    law_results_are_conserved(indexes, states, lists, out);
    assert(states.last().batch =~= Seq::<Entry>::empty());
    assert(states.last().batch.to_multiset() =~= Multiset::empty());
    assert(all_of(out).add(states.last().batch.to_multiset()) =~= all_of(out));
}

// ---------------------------------------------------------------------------------------------
// Every result of every room
// ---------------------------------------------------------------------------------------------

/// Whether the lists that a batch fetches are pages of the given lists of all results of each room.
pub open spec fn pages_of(
    all: spec_fn(Seq<char>) -> Seq<Found>,
    search: GlobalSearch,
    lists: Seq<Seq<Found>>,
) -> bool {
    forall|i: int|
        0 <= i < lists.len() ==> #[trigger] lists[i] == page(
            all(search.rooms[i].room_id),
            start_of(search.rooms[i].offset),
            search.num_results_per_batch as int,
        )
}

/// Whether the search in no room has come past its end, and no offset runs over.
pub open spec fn within(all: spec_fn(Seq<char>) -> Seq<Found>, rooms: Seq<RoomProgress>) -> bool {
    forall|i: int|
        0 <= i < rooms.len() ==> start_of((#[trigger] rooms[i]).offset) <= all(
            rooms[i].room_id,
        ).len() <= usize::MAX
}

/// The results of a room that the search has not come to.
pub open spec fn ahead_in(all: spec_fn(Seq<char>) -> Seq<Found>, room: RoomProgress) -> Seq<Entry> {
    entries_of(room.room_id, all(room.room_id).skip(start_of(room.offset)))
}

/// The results of all rooms that the search has not come to.
pub open spec fn ahead(all: spec_fn(Seq<char>) -> Seq<Found>, rooms: Seq<RoomProgress>) -> Multiset<
    Entry,
>
    decreases rooms.len(),
{
    if rooms.len() == 0 {
        Multiset::empty()
    } else {
        ahead(all, rooms.drop_last()).add(ahead_in(all, rooms.last()).to_multiset())
    }
}

/// What is fetched is no longer ahead.
proof fn lemma_ahead_after_fetch(
    all: spec_fn(Seq<char>) -> Seq<Found>,
    search: GlobalSearch,
    lists: Seq<Seq<Found>>,
    k: int,
)
    requires
        lists.len() <= search.rooms.len(),
        within(all, search.rooms),
        pages_of(all, search, lists),
        0 <= k <= search.rooms.len(),
    ensures
        ahead(all, moved_rooms(search.rooms, lists).take(k)).add(
            fetched_entries(
                search.rooms,
                lists.take(if k < lists.len() {
                    k
                } else {
                    lists.len() as int
                }),
            ).to_multiset(),
        ) == ahead(all, search.rooms.take(k)),
        within(all, moved_rooms(search.rooms, lists)),
    decreases k,
{
    broadcast use group_to_multiset_ensures;

    let rooms = search.rooms;
    let moved = moved_rooms(rooms, lists);
    assert forall|i: int| 0 <= i < moved.len() implies start_of((#[trigger] moved[i]).offset) <= all(
        moved[i].room_id,
    ).len() <= usize::MAX by {
        assert(start_of(rooms[i].offset) <= all(rooms[i].room_id).len() <= usize::MAX);
        if i < lists.len() {
            assert(lists[i].len() <= all(rooms[i].room_id).len() - start_of(rooms[i].offset));
        }
    }
    if k > 0 {
        lemma_ahead_after_fetch(all, search, lists, k - 1);
        let room = rooms[k - 1];
        assert(moved.take(k).drop_last() =~= moved.take(k - 1));
        assert(rooms.take(k).drop_last() =~= rooms.take(k - 1));
        assert(moved.take(k).last() == moved[k - 1]);
        assert(rooms.take(k).last() == room);
        let before = ahead(all, rooms.take(k - 1));
        let after = ahead(all, moved.take(k - 1));
        if k <= lists.len() {
            let some = lists.take(k);
            let list = lists[k - 1];
            assert(some.drop_last() =~= lists.take(k - 1));
            assert(some.last() == list);
            let fetched = fetched_entries(rooms, lists.take(k - 1));
            let more = entries_of(room.room_id, list);
            assert(fetched_entries(rooms, some) == fetched + more);
            lemma_multiset_commutative(fetched, more);
            let rest = ahead_in(all, moved[k - 1]);
            assert(start_of(room.offset) <= all(room.room_id).len() <= usize::MAX);
            let whole = all(room.room_id);
            let start = start_of(room.offset);
            assert(list == page(whole, start, search.num_results_per_batch as int));
            assert(start_of(moved[k - 1].offset) == start + list.len());
            assert(ahead_in(all, room) =~= more + rest);
            lemma_multiset_commutative(more, rest);
            assert(ahead(all, moved.take(k)).add(fetched_entries(rooms, some).to_multiset())
                =~= ahead(all, rooms.take(k)));
        } else {
            assert(moved[k - 1] == room);
            assert(ahead(all, moved.take(k)).add(fetched_entries(rooms, lists).to_multiset())
                =~= ahead(all, rooms.take(k))) by {
                assert(lists.take(lists.len() as int) =~= lists);
            }
            assert(lists.take(lists.len() as int) =~= lists);
        }
    } else {
        assert(lists.take(0) =~= Seq::empty());
        assert(moved.take(0) =~= Seq::empty());
        assert(rooms.take(0) =~= Seq::empty());
        assert(fetched_entries(rooms, lists.take(0)) =~= Seq::<Entry>::empty());
        assert(Seq::<Entry>::empty().to_multiset() =~= Multiset::empty());
        assert(Multiset::<Entry>::empty().add(Multiset::empty()) =~= Multiset::empty());
    }
}

/// Dropping rooms in which nothing is ahead drops nothing that is.
proof fn lemma_ahead_after_filter(
    all: spec_fn(Seq<char>) -> Seq<Found>,
    rooms: Seq<RoomProgress>,
    keep: spec_fn(RoomProgress) -> bool,
)
    requires
        forall|i: int|
            0 <= i < rooms.len() && !keep(#[trigger] rooms[i]) ==> ahead_in(all, rooms[i]).len() == 0,
    ensures
        ahead(all, rooms.filter(keep)) == ahead(all, rooms),
        within(all, rooms) ==> within(all, rooms.filter(keep)),
    decreases rooms.len(),
{
    broadcast use group_to_multiset_ensures;

    reveal(Seq::filter);
    if rooms.len() > 0 {
        let rest = rooms.drop_last();
        assert forall|i: int| 0 <= i < rest.len() && !keep(#[trigger] rest[i]) implies ahead_in(
            all,
            rest[i],
        ).len() == 0 by {
            assert(rest[i] == rooms[i]);
        }
        lemma_ahead_after_filter(all, rest, keep);
        let kept = rest.filter(keep);
        let last = rooms.last();
        let n = rooms.len() - 1;
        assert(rooms[n] == last);
        if within(all, rooms) {
            assert forall|i: int| 0 <= i < rest.len() implies start_of((#[trigger] rest[i]).offset)
                <= all(rest[i].room_id).len() <= usize::MAX by {
                assert(rest[i] == rooms[i]);
            }
        }
        if keep(last) {
            let more = kept.push(last);
            assert(more.drop_last() =~= kept);
            assert(rooms.filter(keep) == more);
            if within(all, rooms) {
                assert forall|i: int| 0 <= i < more.len() implies start_of(
                    (#[trigger] more[i]).offset,
                ) <= all(more[i].room_id).len() <= usize::MAX by {
                    if i < kept.len() {
                        assert(more[i] == kept[i]);
                    }
                }
            }
        } else {
            assert(ahead_in(all, last) =~= Seq::<Entry>::empty());
            assert(ahead_in(all, last).to_multiset() =~= Multiset::empty());
            assert(ahead(all, rooms) =~= ahead(all, rest));
            assert(rooms.filter(keep) == kept);
        }
    }
}

/// One batch moves results from what is ahead to what was fetched.
proof fn lemma_attempt_ahead(
    index: BookmarkIndex,
    all: spec_fn(Seq<char>) -> Seq<Found>,
    before: GlobalSearch,
    lists: Seq<Seq<Found>>,
    out: Seq<Entry>,
    after: GlobalSearch,
)
    requires
        0 < before.num_results_per_batch,
        global_wf(before),
        within(all, before.rooms),
        pages_of(all, before, lists),
        attempt(index, before, lists, out, after),
    ensures
        within(all, after.rooms),
        ahead(all, after.rooms).add(fetched_entries(before.rooms, lists).to_multiset()) == ahead(
            all,
            before.rooms,
        ),
{
    broadcast use group_to_multiset_ensures;

    let rooms = before.rooms;
    let moved = moved_rooms(rooms, lists);
    if search_needed(before) {
        lemma_ahead_after_fetch(all, before, lists, rooms.len() as int);
        assert(moved.take(rooms.len() as int) =~= moved);
        assert(rooms.take(rooms.len() as int) =~= rooms);
        assert(lists.take(lists.len() as int) =~= lists);
        if round(index, before, lists, out, after) {
            let keep = |room: RoomProgress| !exhausted_rooms(rooms, lists).contains(room.room_id);
            assert forall|i: int| 0 <= i < moved.len() && !keep(#[trigger] moved[i]) implies ahead_in(
                all,
                moved[i],
            ).len() == 0 by {
                let j = choose|j: int|
                    0 <= j < lists.len() && (#[trigger] lists[j]).len() == 0 && rooms[j].room_id
                        == moved[i].room_id;
                assert(rooms[i].room_id == moved[i].room_id);
                if i < j {
                    assert(rooms[i].room_id != rooms[j].room_id);
                } else if j < i {
                    assert(rooms[j].room_id != rooms[i].room_id);
                }
                assert(moved[i] == rooms[i]);
                assert(lists[j] == page(
                    all(rooms[j].room_id),
                    start_of(rooms[j].offset),
                    before.num_results_per_batch as int,
                ));
                assert(start_of(rooms[i].offset) <= all(rooms[i].room_id).len());
            }
            lemma_ahead_after_filter(all, moved, keep);
            assert(after.rooms == moved.filter(keep));
        }
    } else {
        assert(fetched_entries(rooms, lists) =~= Seq::<Entry>::empty());
        assert(Seq::<Entry>::empty().to_multiset() =~= Multiset::empty());
        assert(ahead(all, after.rooms).add(Multiset::empty()) =~= ahead(all, rooms));
    }
}

/// Batches move results from what is ahead to what was fetched.
proof fn lemma_attempts_ahead(
    indexes: Seq<BookmarkIndex>,
    all: spec_fn(Seq<char>) -> Seq<Found>,
    states: Seq<GlobalSearch>,
    lists: Seq<Seq<Seq<Found>>>,
    out: Seq<Seq<Entry>>,
)
    requires
        attempts(indexes, states, lists, out),
        global_wf(states[0]),
        states[0].batch.len() == 0,
        0 < states[0].num_results_per_batch,
        within(all, states[0].rooms),
        forall|i: int| 0 <= i < lists.len() ==> pages_of(all, states[i], #[trigger] lists[i]),
    ensures
        within(all, states.last().rooms),
        ahead(all, states.last().rooms).add(all_of(fetched_by(states, lists))) == ahead(
            all,
            states[0].rooms,
        ),
    decreases out.len(),
{
    let fetched = fetched_by(states, lists);
    if out.len() == 0 {
        assert(ahead(all, states[0].rooms).add(all_of(fetched)) =~= ahead(all, states[0].rooms));
    } else {
        let n = out.len() - 1;
        let states_less = states.drop_last();
        let lists_less = lists.drop_last();
        lemma_attempts_less(indexes, states, lists, out);
        assert forall|i: int| 0 <= i < lists_less.len() implies pages_of(
            all,
            states_less[i],
            #[trigger] lists_less[i],
        ) by {
            assert(lists_less[i] == lists[i]);
        }
        lemma_attempts_ahead(
            indexes.drop_last(),
            all,
            states_less,
            lists_less,
            out.drop_last(),
        );
        law_results_are_conserved(
            indexes.drop_last(),
            states_less,
            lists_less,
            out.drop_last(),
        );
        assert(states_less.last() == states[n]);
        assert(attempt(indexes[n], states[n], lists[n], out[n], states[n + 1]));
        assert(pages_of(all, states[n], lists[n]));
        lemma_attempt_ahead(indexes[n], all, states[n], lists[n], out[n], states[n + 1]);
        assert(fetched.drop_last() =~= fetched_by(states_less, lists_less));
        assert(fetched.last() == fetched_entries(states[n].rooms, lists[n]));
        assert(ahead(all, states.last().rooms).add(all_of(fetched)) =~= ahead(
            all,
            states[0].rooms,
        ));
    }
}

/// A search across rooms that has come to its end has handed out every result of every room once, as
/// long as the engine did not rank the results of a room anew in between, and whichever batches
/// failed.
pub proof fn law_every_result_is_handed_out_once(
    indexes: Seq<BookmarkIndex>,
    all: spec_fn(Seq<char>) -> Seq<Found>,
    states: Seq<GlobalSearch>,
    lists: Seq<Seq<Seq<Found>>>,
    out: Seq<Seq<Entry>>,
)
    requires
        attempts(indexes, states, lists, out),
        global_wf(states[0]),
        states[0].batch.len() == 0,
        0 < states[0].num_results_per_batch,
        forall|i: int|
            0 <= i < states[0].rooms.len() ==> (#[trigger] states[0].rooms[i]).offset is None && all(
                states[0].rooms[i].room_id,
            ).len() <= usize::MAX,
        forall|i: int| 0 <= i < lists.len() ==> pages_of(all, states[i], #[trigger] lists[i]),
        states.last().rooms.len() == 0,
    ensures
        all_of(out) == all_of(
            Seq::new(
                states[0].rooms.len(),
                |i: int|
                    entries_of(states[0].rooms[i].room_id, all(states[0].rooms[i].room_id)),
            ),
        ),
{
    let rooms = states[0].rooms;
    assert(within(all, rooms));
    law_all_results_are_handed_out(indexes, states, lists, out);
    lemma_attempts_ahead(indexes, all, states, lists, out);
    let fetched = all_of(fetched_by(states, lists));
    assert(ahead(all, states.last().rooms).add(fetched) =~= fetched);
    lemma_all_ahead(all, rooms);
}

/// A search asks the same question throughout.
proof fn lemma_same_query(
    indexes: Seq<BookmarkIndex>,
    states: Seq<GlobalSearch>,
    lists: Seq<Seq<Seq<Found>>>,
    out: Seq<Seq<Entry>>,
    n: int,
)
    requires
        attempts(indexes, states, lists, out),
        0 <= n <= out.len(),
    ensures
        states[n].query == states[0].query,
    decreases n,
{
    if n > 0 {
        lemma_same_query(indexes, states, lists, out, n - 1);
        assert(attempt(
            indexes[n - 1],
            states[n - 1],
            lists[n - 1],
            out[n - 1],
            states[n - 1 + 1],
        ));
    }
}

/// A search across rooms that has come to its end has handed out every bookmark of its rooms that matches
/// the query once, whichever batches failed, as long as the index does not change and the engine does
/// not rank otherwise in between.
pub proof fn law_every_match_is_handed_out_once(
    index: BookmarkIndex,
    all: spec_fn(Seq<char>) -> Seq<Found>,
    states: Seq<GlobalSearch>,
    lists_of_batches: Seq<Seq<Seq<Found>>>,
    out: Seq<Seq<Entry>>,
)
    requires
        attempts(Seq::new(out.len(), |i: int| index), states, lists_of_batches, out),
        index.wf(),
        index@.committed.private,
        is_plain_query(states[0].query),
        global_wf(states[0]),
        states[0].batch.len() == 0,
        0 < states[0].num_results_per_batch,
        forall|i: int|
            0 <= i < states[0].rooms.len() ==> (#[trigger] states[0].rooms[i]).offset is None && all(
                states[0].rooms[i].room_id,
            ).len() <= usize::MAX,
        forall|room_id: Seq<char>|
            ranked_as(
                index@.committed,
                search_clauses(index.parser(), states[0].query, Some(room_id)),
                #[trigger] all(room_id),
            ),
        states.last().rooms.len() == 0,
    ensures
        all_of(out) == all_of(
            Seq::new(
                states[0].rooms.len(),
                |i: int|
                    entries_of(states[0].rooms[i].room_id, all(states[0].rooms[i].room_id)),
            ),
        ),
        forall|room_id: Seq<char>|
            lists(
                matches_in(index@.committed, index.parser(), states[0].query, Some(room_id)),
                #[trigger] all(room_id),
            ),
{
    let indexes = Seq::new(out.len(), |i: int| index);
    let query = states[0].query;
    index.lemma_wf();
    assert forall|n: int| 0 <= n < lists_of_batches.len() implies pages_of(
        all,
        states[n],
        #[trigger] lists_of_batches[n],
    ) by {
        assert(attempt(indexes[n], states[n], lists_of_batches[n], out[n], states[n + 1]));
        lemma_same_query(indexes, states, lists_of_batches, out, n);
        let fetched = lists_of_batches[n];
        assert forall|i: int| 0 <= i < fetched.len() implies #[trigger] fetched[i] == page(
            all(states[n].rooms[i].room_id),
            start_of(states[n].rooms[i].offset),
            states[n].num_results_per_batch as int,
        ) by {
            law_results_are_of_one_list(
                index@.committed,
                search_clauses(index.parser(), query, Some(states[n].rooms[i].room_id)),
                all(states[n].rooms[i].room_id),
                start_of(states[n].rooms[i].offset),
                states[n].num_results_per_batch as int,
                fetched[i],
            );
        }
    }
    law_every_result_is_handed_out_once(indexes, all, states, lists_of_batches, out);
    assert forall|room_id: Seq<char>| lists(
        matches_in(index@.committed, index.parser(), query, Some(room_id)),
        #[trigger] all(room_id),
    ) by {
        law_list_is_complete(
            index@.committed,
            index.parser(),
            query,
            Some(room_id),
            all(room_id),
        );
    }
}

/// Before the first results were asked for, all are ahead.
proof fn lemma_all_ahead(all: spec_fn(Seq<char>) -> Seq<Found>, rooms: Seq<RoomProgress>)
    requires
        forall|i: int| 0 <= i < rooms.len() ==> (#[trigger] rooms[i]).offset is None,
    ensures
        ahead(all, rooms) == all_of(
            Seq::new(rooms.len(), |i: int| entries_of(rooms[i].room_id, all(rooms[i].room_id))),
        ),
    decreases rooms.len(),
{
    let whole = Seq::new(
        rooms.len(),
        |i: int| entries_of(rooms[i].room_id, all(rooms[i].room_id)),
    );
    if rooms.len() > 0 {
        let rest = rooms.drop_last();
        assert forall|i: int| 0 <= i < rest.len() implies (#[trigger] rest[i]).offset is None by {
            assert(rest[i] == rooms[i]);
        }
        lemma_all_ahead(all, rest);
        assert(whole.drop_last() =~= Seq::new(
            rest.len(),
            |i: int| entries_of(rest[i].room_id, all(rest[i].room_id)),
        ));
        let n = rooms.len() - 1;
        assert(rooms[n].offset is None);
        assert(all(rooms[n].room_id).skip(0) =~= all(rooms[n].room_id));
        assert(ahead_in(all, rooms.last()) =~= whole.last());
    }
}

// ---------------------------------------------------------------------------------------------
// The end
// ---------------------------------------------------------------------------------------------

/// The rooms of a search only become fewer, and once nothing is handed out none is left.
pub proof fn law_rooms_only_become_fewer(
    index: BookmarkIndex,
    before: GlobalSearch,
    lists: Seq<Seq<Found>>,
    out: Seq<Entry>,
    after: GlobalSearch,
)
    requires
        global_wf(before),
        0 < before.num_results_per_batch,
        turn(index, before, lists, out, after),
    ensures
        after.rooms.len() <= before.rooms.len(),
        out.len() == 0 ==> after.rooms.len() == 0,
{
    if search_needed(before) {
        lemma_round_wf(index, before, lists, out, after);
        lemma_left_after_filter(
            index,
            before.query,
            moved_rooms(before.rooms, lists),
            |room: RoomProgress| !exhausted_rooms(before.rooms, lists).contains(room.room_id),
        );
    }
}

/// The number of bookmarks of a room that match a query and that the search has not come to.
pub open spec fn left_in(index: BookmarkIndex, query: Seq<char>, room: RoomProgress) -> nat {
    let count = matches_in(
        index@.committed,
        index.parser(),
        query,
        Some(room.room_id),
    ).len();
    if start_of(room.offset) < count {
        (count - start_of(room.offset)) as nat
    } else {
        0
    }
}

/// The number of bookmarks of all rooms that match a query and that the search has not come to.
pub open spec fn left_in_all(index: BookmarkIndex, query: Seq<char>, rooms: Seq<RoomProgress>) -> nat
    decreases rooms.len(),
{
    if rooms.len() == 0 {
        0
    } else {
        left_in_all(index, query, rooms.drop_last()) + left_in(index, query, rooms.last())
    }
}

/// What is left to do: every bookmark is to be fetched and to be handed out, and every room is to be
/// dropped.
pub open spec fn work_left(index: BookmarkIndex, search: GlobalSearch) -> nat {
    2 * left_in_all(index, search.query, search.rooms) + search.rooms.len() + search.batch.len()
}

/// Dropping rooms leaves no more to do.
proof fn lemma_left_after_filter(
    index: BookmarkIndex,
    query: Seq<char>,
    rooms: Seq<RoomProgress>,
    keep: spec_fn(RoomProgress) -> bool,
)
    ensures
        left_in_all(index, query, rooms.filter(keep)) <= left_in_all(index, query, rooms),
        rooms.filter(keep).len() <= rooms.len(),
        (exists|i: int| 0 <= i < rooms.len() && !keep(#[trigger] rooms[i])) ==> rooms.filter(
            keep,
        ).len() < rooms.len(),
    decreases rooms.len(),
{
    reveal(Seq::filter);
    if rooms.len() > 0 {
        let rest = rooms.drop_last();
        lemma_left_after_filter(index, query, rest, keep);
        let kept = rest.filter(keep);
        if keep(rooms.last()) {
            assert(kept.push(rooms.last()).drop_last() =~= kept);
            assert(rooms.filter(keep) == kept.push(rooms.last()));
            if exists|i: int| 0 <= i < rooms.len() && !keep(#[trigger] rooms[i]) {
                let i = choose|i: int| 0 <= i < rooms.len() && !keep(#[trigger] rooms[i]);
                assert(!keep(rest[i]));
            }
        } else {
            assert(rooms.filter(keep) == kept);
        }
    }
}

/// What is fetched is no longer left.
proof fn lemma_left_after_fetch(
    index: BookmarkIndex,
    query: Seq<char>,
    rooms: Seq<RoomProgress>,
    lists: Seq<Seq<Found>>,
    k: int,
)
    requires
        lists.len() <= rooms.len(),
        0 <= k <= rooms.len(),
        forall|i: int|
            0 <= i < lists.len() ==> {
                &&& (#[trigger] lists[i]).len() <= left_in(index, query, rooms[i])
                &&& start_of(rooms[i].offset) + lists[i].len() <= usize::MAX
            },
    ensures
        left_in_all(index, query, moved_rooms(rooms, lists).take(k)) + fetched_entries(
            rooms,
            lists.take(if k < lists.len() {
                k
            } else {
                lists.len() as int
            }),
        ).len() == left_in_all(index, query, rooms.take(k)),
    decreases k,
{
    let moved = moved_rooms(rooms, lists);
    if k > 0 {
        lemma_left_after_fetch(index, query, rooms, lists, k - 1);
        assert(moved.take(k).drop_last() =~= moved.take(k - 1));
        assert(rooms.take(k).drop_last() =~= rooms.take(k - 1));
        assert(moved.take(k).last() == moved[k - 1]);
        assert(rooms.take(k).last() == rooms[k - 1]);
        if k <= lists.len() {
            let some = lists.take(k);
            assert(some.drop_last() =~= lists.take(k - 1));
            assert(some.last() == lists[k - 1]);
            assert(fetched_entries(rooms, some).len() == fetched_entries(
                rooms,
                lists.take(k - 1),
            ).len() + lists[k - 1].len());
            assert(left_in(index, query, moved[k - 1]) + lists[k - 1].len() == left_in(
                index, query,
                rooms[k - 1],
            ));
        } else {
            assert(moved[k - 1] == rooms[k - 1]);
        }
    } else {
        assert(lists.take(0) =~= Seq::empty());
    }
}

/// A search across rooms comes to an end: as long as the index does not change, every batch leaves less
/// to do.
pub proof fn law_search_ends(
    index: BookmarkIndex,
    before: GlobalSearch,
    lists: Seq<Seq<Found>>,
    out: Seq<Entry>,
    after: GlobalSearch,
)
    requires
        index.wf(),
        index@.committed.private,
        is_plain_query(before.query),
        0 < before.num_results_per_batch,
        global_wf(before),
        round_fits(before),
        turn(index, before, lists, out, after),
    ensures
        work_left(index, after) < work_left(index, before),
{
    broadcast use group_to_multiset_ensures;

    index.lemma_wf();
    if search_needed(before) {
        let rooms = before.rooms;
        let limit = before.num_results_per_batch as int;
        let fetched = fetched_entries(rooms, lists);
        assert forall|i: int| 0 <= i < lists.len() implies {
            &&& (#[trigger] lists[i]).len() <= left_in(index, before.query, rooms[i])
            &&& lists[i].len() == 0 ==> left_in(index, before.query, rooms[i]) == 0
            &&& start_of(rooms[i].offset) + lists[i].len() <= usize::MAX
        } by {
            law_search_is_exhaustive(
                index@.committed,
                index.parser(),
                before.query,
                Some(rooms[i].room_id),
                start_of(rooms[i].offset),
                limit,
                lists[i],
            );
            assert(page_fits(before.num_results_per_batch, rooms[i].offset));
        }
        let moved = moved_rooms(rooms, lists);
        let keep = |room: RoomProgress| !exhausted_rooms(rooms, lists).contains(room.room_id);
        lemma_left_after_fetch(index, before.query, rooms, lists, rooms.len() as int);
        assert(moved.take(rooms.len() as int) =~= moved);
        assert(rooms.take(rooms.len() as int) =~= rooms);
        assert(lists.take(lists.len() as int) =~= lists);
        lemma_left_after_filter(index, before.query, moved, keep);
        assert(after.rooms == moved.filter(keep));
        let pool = before.batch + fetched;
        let whole = out + after.batch;
        assert(whole.to_multiset().len() == pool.to_multiset().len());
        assert(whole.len() == pool.len());
        assert(lists.len() > 0);
        if lists[0].len() == 0 {
            assert(exhausted_rooms(rooms, lists).contains(rooms[0].room_id));
            assert(!keep(moved[0]));
        } else {
            lemma_first_list(rooms, lists);
        }
    }
}

/// Where the first room has results, something is fetched.
proof fn lemma_first_list(rooms: Seq<RoomProgress>, lists: Seq<Seq<Found>>)
    requires
        lists.len() > 0,
        lists[0].len() > 0,
    ensures
        fetched_entries(rooms, lists).len() > 0,
    decreases lists.len(),
{
    if lists.len() > 1 {
        lemma_first_list(rooms, lists.drop_last());
    }
}

/// Where nothing is left in any room, nothing is left in each.
proof fn lemma_left_in_each(index: BookmarkIndex, query: Seq<char>, rooms: Seq<RoomProgress>, i: int)
    requires
        left_in_all(index, query, rooms) == 0,
        0 <= i < rooms.len(),
    ensures
        left_in(index, query, rooms[i]) == 0,
    decreases rooms.len(),
{
    if i < rooms.len() - 1 {
        lemma_left_in_each(index, query, rooms.drop_last(), i);
        assert(rooms.drop_last()[i] == rooms[i]);
    }
}

/// Where nothing is left in each room, nothing is left in all.
proof fn lemma_left_in_none(index: BookmarkIndex, query: Seq<char>, rooms: Seq<RoomProgress>)
    requires
        forall|i: int| 0 <= i < rooms.len() ==> left_in(index, query, #[trigger] rooms[i]) == 0,
    ensures
        left_in_all(index, query, rooms) == 0,
    decreases rooms.len(),
{
    if rooms.len() > 0 {
        let rest = rooms.drop_last();
        assert forall|i: int| 0 <= i < rest.len() implies left_in(index, query, #[trigger] rest[i]) == 0 by {
            assert(rest[i] == rooms[i]);
        }
        lemma_left_in_none(index, query, rest);
        assert(rooms[rooms.len() - 1] == rooms.last());
    }
}

/// The list of a room is not longer than all that was fetched.
proof fn lemma_list_len(rooms: Seq<RoomProgress>, lists: Seq<Seq<Found>>, i: int)
    requires
        0 <= i < lists.len(),
    ensures
        lists[i].len() <= fetched_entries(rooms, lists).len(),
    decreases lists.len(),
{
    if i < lists.len() - 1 {
        lemma_list_len(rooms, lists.drop_last(), i);
        assert(lists.drop_last()[i] == lists[i]);
    }
}

/// Where no list has entries, nothing was fetched.
proof fn lemma_empty_lists(rooms: Seq<RoomProgress>, lists: Seq<Seq<Found>>)
    requires
        forall|i: int| 0 <= i < lists.len() ==> (#[trigger] lists[i]).len() == 0,
    ensures
        fetched_entries(rooms, lists).len() == 0,
    decreases lists.len(),
{
    if lists.len() > 0 {
        let rest = lists.drop_last();
        assert forall|i: int| 0 <= i < rest.len() implies (#[trigger] rest[i]).len() == 0 by {
            assert(rest[i] == lists[i]);
        }
        lemma_empty_lists(rooms, rest);
        assert(lists[lists.len() - 1].len() == 0);
    }
}

/// A batch that is shorter than asked for is the last one: as long as the index does not change, the
/// next hands out nothing.
pub proof fn law_short_batch_is_the_last(
    index: BookmarkIndex,
    before: GlobalSearch,
    lists: Seq<Seq<Found>>,
    out: Seq<Entry>,
    after: GlobalSearch,
    next_lists: Seq<Seq<Found>>,
    next_out: Seq<Entry>,
    last: GlobalSearch,
)
    requires
        index.wf(),
        index@.committed.private,
        is_plain_query(before.query),
        global_wf(before),
        round_fits(before),
        turn(index, before, lists, out, after),
        out.len() < before.num_results_per_batch,
        turn(index, after, next_lists, next_out, last),
    ensures
        next_out.len() == 0,
        last.rooms.len() == 0,
{
    broadcast use group_to_multiset_ensures;

    index.lemma_wf();
    let rooms = before.rooms;
    let limit = before.num_results_per_batch as int;
    let pool = before.batch + fetched_entries(rooms, lists);
    assert(search_needed(before));
    assert(lists.len() == rooms.len());
    let moved = moved_rooms(rooms, lists);
    assert forall|i: int| 0 <= i < moved.len() implies left_in(index, before.query, #[trigger] moved[i]) == 0 by {
        lemma_list_len(rooms, lists, i);
        assert(page_fits(before.num_results_per_batch, rooms[i].offset));
        law_search_is_exhaustive(
            index@.committed,
            index.parser(),
            before.query,
            Some(rooms[i].room_id),
            start_of(rooms[i].offset),
            limit,
            lists[i],
        );
    }
    lemma_left_in_none(index, before.query, moved);
    let keep = |room: RoomProgress| !exhausted_rooms(rooms, lists).contains(room.room_id);
    lemma_left_after_filter(index, before.query, moved, keep);
    assert(after.rooms == moved.filter(keep));
    assert((out + after.batch).to_multiset().len() == pool.to_multiset().len());
    assert(after.batch.len() == 0);
    lemma_round_wf(index, before, lists, out, after);
    assert(search_needed(after));
    assert forall|i: int| 0 <= i < next_lists.len() implies (#[trigger] next_lists[i]).len() == 0 by {
        lemma_left_in_each(index, before.query, after.rooms, i);
        law_search_is_exhaustive(
            index@.committed,
            index.parser(),
            after.query,
            Some(after.rooms[i].room_id),
            start_of(after.rooms[i].offset),
            limit,
            next_lists[i],
        );
    }
    lemma_empty_lists(after.rooms, next_lists);
    law_rooms_only_become_fewer(index, after, next_lists, next_out, last);
}

/// Dropping rooms in which nothing is left leaves as much.
proof fn lemma_left_after_drop(
    index: BookmarkIndex,
    query: Seq<char>,
    rooms: Seq<RoomProgress>,
    keep: spec_fn(RoomProgress) -> bool,
)
    requires
        forall|i: int|
            0 <= i < rooms.len() && !keep(#[trigger] rooms[i]) ==> left_in(index, query, rooms[i]) == 0,
    ensures
        left_in_all(index, query, rooms.filter(keep)) == left_in_all(index, query, rooms),
    decreases rooms.len(),
{
    reveal(Seq::filter);
    if rooms.len() > 0 {
        let rest = rooms.drop_last();
        assert forall|i: int| 0 <= i < rest.len() && !keep(#[trigger] rest[i]) implies left_in(
            index, query,
            rest[i],
        ) == 0 by {
            assert(rest[i] == rooms[i]);
        }
        lemma_left_after_drop(index, query, rest, keep);
        let kept = rest.filter(keep);
        assert(rooms[rooms.len() - 1] == rooms.last());
        if keep(rooms.last()) {
            assert(kept.push(rooms.last()).drop_last() =~= kept);
        }
    }
}

/// A batch fetches as many results as there are fewer left after it in the rooms that are still
/// searched, whether it succeeds or fails.
pub proof fn law_fetched_results_are_no_longer_left(
    index: BookmarkIndex,
    before: GlobalSearch,
    lists: Seq<Seq<Found>>,
    out: Seq<Entry>,
    after: GlobalSearch,
)
    requires
        index.wf(),
        index@.committed.private,
        is_plain_query(before.query),
        0 < before.num_results_per_batch,
        global_wf(before),
        round_fits(before),
        attempt(index, before, lists, out, after),
    ensures
        left_in_all(index, before.query, after.rooms) + fetched_entries(before.rooms, lists).len() == left_in_all(
            index, before.query,
            before.rooms,
        ),
{
    index.lemma_wf();
    let rooms = before.rooms;
    if search_needed(before) {
        let limit = before.num_results_per_batch as int;
        assert forall|i: int| 0 <= i < lists.len() implies {
            &&& (#[trigger] lists[i]).len() <= left_in(index, before.query, rooms[i])
            &&& lists[i].len() == 0 ==> left_in(index, before.query, rooms[i]) == 0
            &&& start_of(rooms[i].offset) + lists[i].len() <= usize::MAX
        } by {
            law_search_is_exhaustive(
                index@.committed,
                index.parser(),
                before.query,
                Some(rooms[i].room_id),
                start_of(rooms[i].offset),
                limit,
                lists[i],
            );
            assert(page_fits(before.num_results_per_batch, rooms[i].offset));
        }
        let moved = moved_rooms(rooms, lists);
        lemma_left_after_fetch(index, before.query, rooms, lists, rooms.len() as int);
        assert(moved.take(rooms.len() as int) =~= moved);
        assert(rooms.take(rooms.len() as int) =~= rooms);
        assert(lists.take(lists.len() as int) =~= lists);
        if round(index, before, lists, out, after) {
            let keep = |room: RoomProgress| !exhausted_rooms(rooms, lists).contains(room.room_id);
            assert forall|i: int| 0 <= i < moved.len() && !keep(#[trigger] moved[i]) implies left_in(
                index, before.query,
                moved[i],
            ) == 0 by {
                let j = choose|j: int|
                    0 <= j < lists.len() && (#[trigger] lists[j]).len() == 0 && rooms[j].room_id
                        == moved[i].room_id;
                assert(rooms[i].room_id == moved[i].room_id);
                if i < j {
                    assert(rooms[i].room_id != rooms[j].room_id);
                } else if j < i {
                    assert(rooms[j].room_id != rooms[i].room_id);
                }
                assert(moved[i] == rooms[i]);
            }
            lemma_left_after_drop(index, before.query, moved, keep);
            assert(after.rooms == moved.filter(keep));
        }
    } else {
        assert(fetched_entries(rooms, lists).len() == 0);
    }
}

/// As long as the index does not change, what the batches of a search across rooms have fetched and what
/// is left in the rooms are together as many as there were at the start. A search that has come to its
/// end has handed out as many results as bookmarks of its rooms match the query.
pub proof fn law_as_many_results_as_matches(
    index: BookmarkIndex,
    states: Seq<GlobalSearch>,
    lists: Seq<Seq<Seq<Found>>>,
    out: Seq<Seq<Entry>>,
)
    requires
        attempts(Seq::new(out.len(), |i: int| index), states, lists, out),
        index.wf(),
        index@.committed.private,
        is_plain_query(states[0].query),
        0 < states[0].num_results_per_batch,
        global_wf(states[0]),
        states[0].batch.len() == 0,
        forall|i: int| 0 <= i < out.len() ==> round_fits(#[trigger] states[i]),
    ensures
        states.last().query == states[0].query,
        states.last().num_results_per_batch == states[0].num_results_per_batch,
        all_of(fetched_by(states, lists)).len() + left_in_all(index, states[0].query, states.last().rooms)
            == left_in_all(index, states[0].query, states[0].rooms),
        states.last().rooms.len() == 0 ==> all_of(out).len() == left_in_all(
            index, states[0].query,
            states[0].rooms,
        ),
    decreases out.len(),
{
    broadcast use group_to_multiset_ensures;

    index.lemma_wf();
    let indexes = Seq::new(out.len(), |i: int| index);
    let fetched = fetched_by(states, lists);
    if out.len() > 0 {
        let n = out.len() - 1;
        let states_less = states.drop_last();
        let lists_less = lists.drop_last();
        let out_less = out.drop_last();
        lemma_attempts_less(indexes, states, lists, out);
        assert(indexes.drop_last() =~= Seq::new(out_less.len(), |i: int| index));
        law_as_many_results_as_matches(index, states_less, lists_less, out_less);
        law_results_are_conserved(indexes.drop_last(), states_less, lists_less, out_less);
        assert(attempt(indexes[n], states[n], lists[n], out[n], states[n + 1]));
        law_fetched_results_are_no_longer_left(index, states[n], lists[n], out[n], states[n + 1]);
        assert(fetched.drop_last() =~= fetched_by(states_less, lists_less));
    }
    if states.last().rooms.len() == 0 {
        law_all_results_are_handed_out(indexes, states, lists, out);
    }
}

} // verus!
