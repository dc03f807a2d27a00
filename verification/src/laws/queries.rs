//! What a caller gets from a search.

use tantivy::query::QueryParser;
use vstd::multiset::Multiset;
use vstd::prelude::*;

use crate::bookmark::{found_views, Found, IndexedBookmark};
use crate::engine::{doc_matches, has_scores, has_term, query_parses, Doc};
use crate::error::IndexError;
use crate::ids::{EventId, RoomId};
use crate::index::{
    is_wildcard, page_fits, search_clauses, searched, start_of, BookmarkIndex,
};
use crate::laws::search::{
    is_answered_batch, law_batches_are_as_many_as_matches,
    law_page_is_part_of_all_results, law_results_are_bounded, law_results_match_the_query,
    law_room_filter_holds, law_search_is_exhaustive, matches_in, matches_query,
};
use crate::model::{
    all_bookmarks, answers, doc_meets, doc_meets_all, doc_pointer, hit, key_text, lists, matching,
    short, some_doc_of, Committed,
};
use crate::nesting::is_shallow;
use crate::rooms::Room;
use crate::schema::bookmark_schema;
use crate::search::{
    bookmarked_in, distinct_targets, id_texts, points_at, BookmarkSearchIterator, RoomSearch,
};

verus! {

// ---------------------------------------------------------------------------------------------
// One search
// ---------------------------------------------------------------------------------------------

/// Everything is asked for by nothing and by an asterisk, and by no other text.
pub proof fn law_two_texts_ask_for_everything(query: Seq<char>)
    ensures
        is_wildcard(query) <==> query.len() == 0 || query == "*"@,
{
}

/// A search in a room is the search with that room.
pub proof fn law_room_searches_its_bookmarks(
    room: Room,
    index: BookmarkIndex,
    query: &str,
    max_number_of_results: usize,
    pagination_offset: Option<usize>,
    results: Result<Vec<IndexedBookmark>, IndexError>,
)
    requires
        call_ensures(
            Room::search_room_bookmarks,
            (&room, &index, query, max_number_of_results, pagination_offset),
            results,
        ),
    ensures
        searched(
            index,
            query@,
            max_number_of_results,
            pagination_offset,
            Some(room.room_id@),
            results,
        ),
{
}

/// A search of an index is one in all rooms, or in the room that is given.
pub proof fn law_index_searches_the_room_that_is_given(
    index: BookmarkIndex,
    query: &str,
    max_number_of_results: usize,
    pagination_offset: Option<usize>,
    room_id: &RoomId,
    all: Result<Vec<IndexedBookmark>, IndexError>,
    in_room: Result<Vec<IndexedBookmark>, IndexError>,
)
    requires
        call_ensures(
            BookmarkIndex::search,
            (&index, query, max_number_of_results, pagination_offset, None::<&RoomId>),
            all,
        ),
        call_ensures(
            BookmarkIndex::search,
            (&index, query, max_number_of_results, pagination_offset, Some(room_id)),
            in_room,
        ),
    ensures
        searched(index, query@, max_number_of_results, pagination_offset, None, all),
        searched(
            index,
            query@,
            max_number_of_results,
            pagination_offset,
            Some(room_id@),
            in_room,
        ),
{
}

/// A page can be asked for if and only if it has room for a result and ends within the range that the
/// engine can count.
pub proof fn law_pages_that_can_be_asked_for(max_number_of_results: usize, offset: usize)
    ensures
        page_fits(max_number_of_results, Some(offset)) <==> 0 < max_number_of_results && offset
            + max_number_of_results <= usize::MAX / 64,
        page_fits(max_number_of_results, None) <==> 0 < max_number_of_results <= usize::MAX / 64,
        start_of(None) == 0,
        start_of(Some(offset)) == offset,
{
}

/// Whether a search fails because of its text depends on the text alone: neither nothing nor an
/// asterisk fails, and any other text fails if and only if it is nested too deeply or cannot be read.
pub proof fn law_texts_that_cannot_be_searched(
    index: BookmarkIndex,
    query: Seq<char>,
    max_number_of_results: usize,
    pagination_offset: Option<usize>,
    room_id: Option<Seq<char>>,
    results: Result<Vec<IndexedBookmark>, IndexError>,
)
    requires
        searched(index, query, max_number_of_results, pagination_offset, room_id, results),
    ensures
        query.len() == 0 || query == "*"@ ==> !(results matches Err(error) && (error is QueryTooDeep
            || error is QueryParserError)),
        query.len() > 0 && query != "*"@ ==> {
            &&& (results matches Err(error) && error is QueryTooDeep) <==> !is_shallow(query)
            &&& (results matches Err(error) && error is QueryParserError) <==> is_shallow(query)
                && !query_parses(index.parser(), query)
        },
        results matches Err(error) ==> error is QueryTooDeep || error is QueryParserError
            || error is TantivyError || error is IdParsing && !index@.committed.private,
{
}

/// Every result of a search for a text matches it, unless the text is empty or a single asterisk, and
/// there are no more results than were asked for.
pub proof fn law_results_match_the_text(
    index: BookmarkIndex,
    query: Seq<char>,
    max_number_of_results: usize,
    pagination_offset: Option<usize>,
    room_id: Option<Seq<char>>,
    results: Vec<IndexedBookmark>,
)
    requires
        searched(
            index,
            query,
            max_number_of_results,
            pagination_offset,
            room_id,
            Ok::<Vec<IndexedBookmark>, IndexError>(results),
        ),
    ensures
        results@.len() <= max_number_of_results,
        query.len() > 0 && query != "*"@ ==> forall|i: int|
            0 <= i < results@.len() ==> matches_query(
                index@.committed,
                index.parser(),
                query,
                (#[trigger] results@[i])@.pointer,
            ),
{
    let clauses = search_clauses(index.parser(), query, room_id);
    law_results_are_bounded(
        index@.committed,
        clauses,
        start_of(pagination_offset),
        max_number_of_results as int,
        found_views(results@),
    );
    if query.len() > 0 && query != "*"@ {
        law_results_match_the_query(
            index@.committed,
            index.parser(),
            query,
            room_id,
            start_of(pagination_offset),
            max_number_of_results as int,
            found_views(results@),
        );
        assert forall|i: int| 0 <= i < results@.len() implies matches_query(
            index@.committed,
            index.parser(),
            query,
            (#[trigger] results@[i])@.pointer,
        ) by {
            assert(found_views(results@)[i].pointer == results@[i]@.pointer);
        }
    }
}

/// Every result of a search in a room points into that room.
pub proof fn law_results_are_of_the_room(
    index: BookmarkIndex,
    query: Seq<char>,
    max_number_of_results: usize,
    pagination_offset: Option<usize>,
    room_id: Seq<char>,
    results: Vec<IndexedBookmark>,
)
    requires
        index@.committed.private,
        all_bookmarks(index@.committed.docs),
        searched(
            index,
            query,
            max_number_of_results,
            pagination_offset,
            Some(room_id),
            Ok::<Vec<IndexedBookmark>, IndexError>(results),
        ),
    ensures
        forall|i: int|
            0 <= i < results@.len() ==> (#[trigger] results@[i]).target_room_id@ == room_id,
{
    law_room_filter_holds(
        index@.committed,
        index.parser(),
        query,
        room_id,
        start_of(pagination_offset),
        max_number_of_results as int,
        found_views(results@),
    );
    assert forall|i: int| 0 <= i < results@.len() implies (#[trigger] results@[i]).target_room_id@
        == room_id by {
        assert(found_views(results@)[i].pointer.target_room_id == room_id);
    }
}

/// The documents that a search is for are told by the text and the room alone: all of them for nothing
/// and for an asterisk, those that match for any other text, and of these the ones of the room, if one
/// is given.
pub proof fn law_what_a_search_is_for(
    committed: Committed,
    parser: QueryParser,
    query: Seq<char>,
    room_id: Option<Seq<char>>,
)
    ensures
        matches_in(committed, parser, query, room_id) == committed.docs.filter(
            |doc: Doc|
                (query.len() > 0 && query != "*"@ ==> doc_matches(parser, query, doc)) && (
                room_id matches Some(room) ==> has_term(
                    doc,
                    bookmark_schema().target_room_id,
                    room,
                )),
        ),
{
    let clauses = search_clauses(parser, query, room_id);
    let wanted = |doc: Doc|
        (query.len() > 0 && query != "*"@ ==> doc_matches(parser, query, doc)) && (
        room_id matches Some(room) ==> has_term(doc, bookmark_schema().target_room_id, room));
    assert forall|doc: Doc| doc_meets_all(clauses, doc) == #[trigger] wanted(doc) by {
        if doc_meets_all(clauses, doc) {
            assert forall|i: int| 0 <= i < clauses.len() implies doc_meets(clauses[i], doc) by {}
            assert(doc_meets(clauses[0], doc));
            if clauses.len() > 1 {
                assert(doc_meets(clauses[1], doc));
            }
        }
    }
    assert(matches_in(committed, parser, query, room_id) =~= committed.docs.filter(wanted));
}

/// A search brings as many results as there are matches after the offset, up to the number asked for.
pub proof fn law_search_brings_every_match(
    index: BookmarkIndex,
    query: Seq<char>,
    max_number_of_results: usize,
    pagination_offset: Option<usize>,
    room_id: Option<Seq<char>>,
    results: Vec<IndexedBookmark>,
    wanted: Multiset<Doc>,
)
    requires
        index@.committed.private,
        all_bookmarks(index@.committed.docs),
        query.len() == 0 || query == "*"@ || !query.contains('*') && has_scores(query),
        searched(
            index,
            query,
            max_number_of_results,
            pagination_offset,
            room_id,
            Ok::<Vec<IndexedBookmark>, IndexError>(results),
        ),
        wanted == index@.committed.docs.filter(
            |doc: Doc|
                (query.len() > 0 && query != "*"@ ==> doc_matches(index.parser(), query, doc)) && (
                room_id matches Some(room) ==> has_term(
                    doc,
                    bookmark_schema().target_room_id,
                    room,
                )),
        ),
    ensures
        ({
            let offset: int = match pagination_offset {
                Some(offset) => offset as int,
                None => 0,
            };
            &&& wanted.len() <= offset ==> results@.len() == 0
            &&& offset < wanted.len() <= offset + max_number_of_results ==> results@.len()
                == wanted.len() - offset
            &&& offset + max_number_of_results < wanted.len() ==> results@.len()
                == max_number_of_results
        }),
{
    law_what_a_search_is_for(index@.committed, index.parser(), query, room_id);
    law_search_is_exhaustive(
        index@.committed,
        index.parser(),
        query,
        room_id,
        start_of(pagination_offset),
        max_number_of_results as int,
        found_views(results@),
    );
}

/// The results after an offset are those that a search of all would bring from there on.
pub proof fn law_offset_leaves_out_the_first(
    index: BookmarkIndex,
    query: Seq<char>,
    max_number_of_results: usize,
    pagination_offset: Option<usize>,
    room_id: Option<Seq<char>>,
    results: Vec<IndexedBookmark>,
) -> (all: Seq<Found>)
    requires
        index@.committed.private,
        all_bookmarks(index@.committed.docs),
        searched(
            index,
            query,
            max_number_of_results,
            pagination_offset,
            room_id,
            Ok::<Vec<IndexedBookmark>, IndexError>(results),
        ),
    ensures
        answers(
            index@.committed,
            search_clauses(index.parser(), query, room_id),
            0,
            all.len() as int,
            all,
        ),
        ({
            let offset: int = match pagination_offset {
                Some(offset) => offset as int,
                None => 0,
            };
            &&& results@.len() > 0 ==> offset + results@.len() <= all.len()
            &&& results@.len() < max_number_of_results ==> all.len() <= offset + results@.len()
            &&& forall|i: int|
                0 <= i < results@.len() ==> (#[trigger] results@[i])@ == all[offset + i]
        }),
{
    let all = law_page_is_part_of_all_results(
        index@.committed,
        search_clauses(index.parser(), query, room_id),
        start_of(pagination_offset),
        max_number_of_results as int,
        found_views(results@),
    );
    assert forall|i: int| 0 <= i < results@.len() implies (#[trigger] results@[i])@
        == all[start_of(pagination_offset) + i] by {
        assert(found_views(results@)[i] == results@[i]@);
    }
    all
}

// ---------------------------------------------------------------------------------------------
// Searches one after the other
// ---------------------------------------------------------------------------------------------

/// An iterator over the results in a room starts before the first of them, and is not done.
pub proof fn law_iterator_starts_before_all_results(
    room: Room,
    query: String,
    num_results_per_batch: usize,
    iterator: BookmarkSearchIterator,
)
    requires
        call_ensures(
            Room::search_room_bookmarks_iterator,
            (&room, query, num_results_per_batch),
            iterator,
        ),
    ensures
        iterator@.room_id == room.room_id@,
        iterator@.query == query@,
        iterator@.offset is None,
        !iterator@.is_done,
        iterator@.num_results_per_batch == num_results_per_batch,
{
}

/// An iterator tells whether it is done, and whether its next page can be asked for.
pub proof fn law_iterator_tells_where_it_is(
    iterator: BookmarkSearchIterator,
    done: bool,
    fits: bool,
)
    requires
        call_ensures(BookmarkSearchIterator::is_done, (&iterator,), done),
        call_ensures(BookmarkSearchIterator::can_continue, (&iterator,), fits),
    ensures
        done == iterator@.is_done,
        fits <==> 0 < iterator@.num_results_per_batch && (match iterator@.offset {
            Some(offset) => offset as int,
            None => 0,
        }) + iterator@.num_results_per_batch <= usize::MAX / 64,
{
}

/// Results lead an iterator on by as many as there are, however many there were before, and none is
/// done because of them: only a batch without results ends the search.
pub proof fn law_only_an_empty_batch_ends_the_search(
    iterator: &mut BookmarkSearchIterator,
    results: Vec<IndexedBookmark>,
    batch: Option<Vec<IndexedBookmark>>,
)
    requires
        call_ensures(BookmarkSearchIterator::accept, (iterator, results), batch),
        start_of(old(iterator)@.offset) + results@.len() <= usize::MAX,
    ensures
        batch is None <==> results@.len() == 0,
        batch matches Some(found) ==> found == results,
        final(iterator)@.is_done <==> old(iterator)@.is_done || results@.len() == 0,
        results@.len() == 0 ==> final(iterator)@.offset == old(iterator)@.offset,
        results@.len() > 0 ==> (final(iterator)@.offset matches Some(offset) && offset == (
        match old(iterator)@.offset {
            Some(offset) => offset as int,
            None => 0,
        }) + results@.len()),
        final(iterator)@.query == old(iterator)@.query,
        final(iterator)@.room_id == old(iterator)@.room_id,
        final(iterator)@.num_results_per_batch == old(iterator)@.num_results_per_batch,
{
}

/// As long as an iterator is not done, each batch that it brings answers the query from its offset on,
/// is not empty, leads the iterator on by as many results as there are, and does not end the search.
/// Where nothing answers the query from there on it brings none, and is then done. An iterator that is
/// done brings none, and a failure changes nothing.
pub proof fn law_iterator_goes_on_until_nothing_is_left(
    iterator: &mut BookmarkSearchIterator,
    index: &BookmarkIndex,
    batch: Result<Option<Vec<IndexedBookmark>>, IndexError>,
)
    requires
        call_ensures(BookmarkSearchIterator::next, (iterator, index), batch),
        page_fits(old(iterator)@.num_results_per_batch, old(iterator)@.offset),
    ensures
        old(iterator)@.is_done ==> (batch matches Ok(None)) && final(iterator)@ == old(iterator)@,
        !old(iterator)@.is_done ==> match batch {
            Ok(Some(found)) => {
                &&& 0 < found@.len() <= old(iterator)@.num_results_per_batch
                &&& !final(iterator)@.is_done
                &&& final(iterator)@.offset matches Some(offset) && offset == (
                match old(iterator)@.offset {
                    Some(offset) => offset as int,
                    None => 0,
                }) + found@.len()
            },
            Ok(None) => {
                &&& final(iterator)@.is_done
                &&& final(iterator)@.offset == old(iterator)@.offset
            },
            Err(_) => final(iterator)@ == old(iterator)@,
        },
        final(iterator)@.query == old(iterator)@.query,
        final(iterator)@.room_id == old(iterator)@.room_id,
        final(iterator)@.num_results_per_batch == old(iterator)@.num_results_per_batch,
        !old(iterator)@.is_done ==> (batch matches Ok(found) ==> answers(
            index@.committed,
            search_clauses(index.parser(), old(iterator)@.query, Some(old(iterator)@.room_id)),
            match old(iterator)@.offset {
                Some(offset) => offset as int,
                None => 0,
            },
            old(iterator)@.num_results_per_batch as int,
            match found {
                Some(bookmarks) => found_views(bookmarks@),
                None => Seq::empty(),
            },
        )),
{
    let search = old(iterator)@;
    if !search.is_done {
        if let Ok(found) = batch {
            let results = match found {
                Some(bookmarks) => found_views(bookmarks@),
                None => Seq::<Found>::empty(),
            };
            law_results_are_bounded(
                index@.committed,
                search_clauses(index.parser(), search.query, Some(search.room_id)),
                start_of(search.offset),
                search.num_results_per_batch as int,
                results,
            );
        }
    }
}

/// The results of the batches that an iterator brings, one batch after the other.
pub open spec fn brought(batches: Seq<Option<Vec<IndexedBookmark>>>) -> Seq<Seq<Found>> {
    Seq::new(
        batches.len(),
        |i: int|
            match batches[i] {
                Some(bookmarks) => found_views(bookmarks@),
                None => Seq::empty(),
            },
    )
}

/// A new iterator over the results in a room, asked again and again until it brings none for the first
/// time, brings as many results as bookmarks of the room match the query, as long as the index does not
/// change.
pub proof fn law_iterator_brings_every_match(
    index: &BookmarkIndex,
    query: Seq<char>,
    room_id: Seq<char>,
    states: Seq<RoomSearch>,
    batches: Seq<Option<Vec<IndexedBookmark>>>,
    wanted: Multiset<Doc>,
)
    requires
        index@.committed.private,
        all_bookmarks(index@.committed.docs),
        query.len() == 0 || query == "*"@ || !query.contains('*') && has_scores(query),
        states.len() == batches.len() + 1,
        states[0].query == query,
        states[0].room_id == room_id,
        states[0].offset is None,
        !states[0].is_done,
        forall|i: int|
            0 <= i < batches.len() ==> page_fits(
                (#[trigger] states[i]).num_results_per_batch,
                states[i].offset,
            ),
        forall|i: int|
            0 <= i < batches.len() ==> ((#[trigger] batches[i]) is None <==> i == batches.len() - 1)
                && exists|iterator: &mut BookmarkSearchIterator|
                {
                    &&& #[trigger] call_ensures(
                        BookmarkSearchIterator::next,
                        (iterator, index),
                        Ok::<Option<Vec<IndexedBookmark>>, IndexError>(batches[i]),
                    )
                    &&& iterator@ == states[i]
                    &&& final(iterator)@ == states[i + 1]
                },
        batches.len() > 0,
        wanted == index@.committed.docs.filter(
            |doc: Doc|
                (query.len() > 0 && query != "*"@ ==> doc_matches(index.parser(), query, doc))
                    && has_term(doc, bookmark_schema().target_room_id, room_id),
        ),
    ensures
        brought(batches).flatten().len() == wanted.len(),
{
    let all = brought(batches);
    assert forall|i: int| 0 <= i < all.len() implies is_answered_batch(
        index@.committed,
        index.parser(),
        states[i],
        #[trigger] all[i],
        states[i + 1],
    ) by {
        lemma_not_done(index, states, batches, i);
        assert(page_fits(states[i].num_results_per_batch, states[i].offset));
        let batch = batches[i];
        lemma_answered(index, states[i], batch, states[i + 1]);
    }
    law_batches_are_as_many_as_matches(index@.committed, index.parser(), states, all);
    law_what_a_search_is_for(index@.committed, index.parser(), query, Some(room_id));
    assert(wanted =~= matches_in(index@.committed, index.parser(), query, Some(room_id)));
    let n = batches.len() - 1;
    assert(page_fits(states[0].num_results_per_batch, states[0].offset));
    assert(all.last() =~= Seq::<Found>::empty());
}

/// What an iterator that is not done brings answers its question, and only nothing ends the search.
proof fn lemma_answered(
    index: &BookmarkIndex,
    before: RoomSearch,
    batch: Option<Vec<IndexedBookmark>>,
    after: RoomSearch,
)
    requires
        !before.is_done,
        page_fits(before.num_results_per_batch, before.offset),
        exists|iterator: &mut BookmarkSearchIterator|
            {
                &&& #[trigger] call_ensures(
                    BookmarkSearchIterator::next,
                    (iterator, index),
                    Ok::<Option<Vec<IndexedBookmark>>, IndexError>(batch),
                )
                &&& iterator@ == before
                &&& final(iterator)@ == after
            },
    ensures
        is_answered_batch(
            index@.committed,
            index.parser(),
            before,
            match batch {
                Some(bookmarks) => found_views(bookmarks@),
                None => Seq::empty(),
            },
            after,
        ),
        after.is_done <==> batch is None,
{
    let results = match batch {
        Some(bookmarks) => found_views(bookmarks@),
        None => Seq::<Found>::empty(),
    };
    law_results_are_bounded(
        index@.committed,
        search_clauses(index.parser(), before.query, Some(before.room_id)),
        start_of(before.offset),
        before.num_results_per_batch as int,
        results,
    );
}

/// An iterator is not done as long as it brings results.
proof fn lemma_not_done(
    index: &BookmarkIndex,
    states: Seq<RoomSearch>,
    batches: Seq<Option<Vec<IndexedBookmark>>>,
    n: int,
)
    requires
        states.len() == batches.len() + 1,
        !states[0].is_done,
        forall|i: int|
            0 <= i < batches.len() ==> page_fits(
                (#[trigger] states[i]).num_results_per_batch,
                states[i].offset,
            ),
        forall|i: int|
            0 <= i < batches.len() ==> ((#[trigger] batches[i]) is None <==> i == batches.len() - 1)
                && exists|iterator: &mut BookmarkSearchIterator|
                {
                    &&& #[trigger] call_ensures(
                        BookmarkSearchIterator::next,
                        (iterator, index),
                        Ok::<Option<Vec<IndexedBookmark>>, IndexError>(batches[i]),
                    )
                    &&& iterator@ == states[i]
                    &&& final(iterator)@ == states[i + 1]
                },
        0 <= n < batches.len(),
    ensures
        !states[n].is_done,
    decreases n,
{
    if n > 0 {
        lemma_not_done(index, states, batches, n - 1);
        assert(page_fits(states[n - 1].num_results_per_batch, states[n - 1].offset));
        let batch = batches[n - 1];
        lemma_answered(index, states[n - 1], batch, states[n - 1 + 1]);
    }
}

// ---------------------------------------------------------------------------------------------
// Lookups
// ---------------------------------------------------------------------------------------------

/// Each event that a bookmark points at is in the list, once, and no other.
pub proof fn law_targets_are_listed_once(
    bookmarks: Vec<IndexedBookmark>,
    event_ids: Vec<EventId>,
    id: Seq<char>,
)
    requires
        call_ensures(distinct_targets, (&bookmarks,), event_ids),
    ensures
        forall|i: int, j: int|
            0 <= i < j < event_ids@.len() ==> (#[trigger] event_ids@[i])@ != (
            #[trigger] event_ids@[j])@,
        (exists|k: int| 0 <= k < event_ids@.len() && (#[trigger] event_ids@[k])@ == id) <==> (exists|
            i: int,
        |
            0 <= i < bookmarks@.len() && (#[trigger] bookmarks@[i]).target_event_id@ == id),
{
    let ids = id_texts(event_ids@);
    let found = found_views(bookmarks@);
    assert forall|i: int, j: int| 0 <= i < j < event_ids@.len() implies (
    #[trigger] event_ids@[i])@ != (#[trigger] event_ids@[j])@ by {
        assert(ids[i] == event_ids@[i]@ && ids[j] == event_ids@[j]@);
    }
    assert(ids.contains(id) <==> points_at(found, id));
    if exists|i: int| 0 <= i < bookmarks@.len() && (#[trigger] bookmarks@[i]).target_event_id@ == id {
        let i = choose|i: int|
            0 <= i < bookmarks@.len() && (#[trigger] bookmarks@[i]).target_event_id@ == id;
        assert(found[i].pointer.target_event_id == id);
        let k = choose|k: int| 0 <= k < ids.len() && ids[k] == id;
        assert(event_ids@[k]@ == id);
    }
    if exists|k: int| 0 <= k < event_ids@.len() && (#[trigger] event_ids@[k])@ == id {
        let k = choose|k: int| 0 <= k < event_ids@.len() && (#[trigger] event_ids@[k])@ == id;
        assert(ids[k] == id);
        let i = choose|i: int|
            0 <= i < found.len() && (#[trigger] found[i]).pointer.target_event_id == id;
        assert(bookmarks@[i].target_event_id@ == id);
    }
}

/// The bookmarked events of a room are exactly those that a committed bookmark of the room points at,
/// each once.
pub proof fn law_bookmarked_events_are_those_of_the_room(
    room: Room,
    index: &BookmarkIndex,
    event_ids: Vec<EventId>,
    id: EventId,
)
    requires
        index@.committed.private,
        call_ensures(
            Room::bookmarked_event_ids,
            (&room, index),
            Ok::<Vec<EventId>, IndexError>(event_ids),
        ),
    ensures
        forall|i: int, j: int|
            0 <= i < j < event_ids@.len() ==> (#[trigger] event_ids@[i])@ != (
            #[trigger] event_ids@[j])@,
        (exists|k: int| 0 <= k < event_ids@.len() && (#[trigger] event_ids@[k])@ == id@) <==> exists|
            doc: Doc,
        |
            {
                &&& #[trigger] index@.committed.docs.contains(doc)
                &&& has_term(doc, bookmark_schema().target_room_id, room.room_id@)
                &&& doc_pointer(doc) matches Some(pointer) && pointer.target_event_id == id@
            },
{
    let ids = id_texts(event_ids@);
    let docs = index@.committed.docs;
    let field = bookmark_schema().target_room_id;
    assert forall|i: int, j: int| 0 <= i < j < event_ids@.len() implies (
    #[trigger] event_ids@[i])@ != (#[trigger] event_ids@[j])@ by {
        assert(ids[i] == event_ids@[i]@ && ids[j] == event_ids@[j]@);
    }
    assert(ids.contains(id@) <==> bookmarked_in(index@.committed, room.room_id@, id@));
    if exists|k: int| 0 <= k < event_ids@.len() && (#[trigger] event_ids@[k])@ == id@ {
        let k = choose|k: int| 0 <= k < event_ids@.len() && (#[trigger] event_ids@[k])@ == id@;
        assert(ids[k] == id@);
        assert(ids.contains(id@));
        let doc = choose|doc: Doc| #[trigger]
            matching(docs, field, room.room_id@).contains(doc) && doc_pointer(doc) is Some
                && doc_pointer(doc)->Some_0.target_event_id == id@;
        assert(docs.contains(doc));
    }
    if exists|doc: Doc|
        {
            &&& #[trigger] docs.contains(doc)
            &&& has_term(doc, field, room.room_id@)
            &&& doc_pointer(doc) matches Some(pointer) && pointer.target_event_id == id@
        } {
        let doc = choose|doc: Doc|
            {
                &&& #[trigger] docs.contains(doc)
                &&& has_term(doc, field, room.room_id@)
                &&& doc_pointer(doc) matches Some(pointer) && pointer.target_event_id == id@
            };
        assert(matching(docs, field, room.room_id@).contains(doc));
        assert(ids.contains(id@));
        let k = choose|k: int| 0 <= k < ids.len() && ids[k] == id@;
        assert(event_ids@[k]@ == id@);
    }
}

/// A lookup of an id brings as many bookmarks as have it, up to the number asked for, and each of them
/// has it.
pub proof fn law_lookup_brings_bookmarks_with_the_id(
    index: &BookmarkIndex,
    field: u32,
    event_id: &EventId,
    max_number_of_results: usize,
    results: Vec<IndexedBookmark>,
    with_id: Multiset<Doc>,
)
    requires
        index@.committed.private,
        call_ensures(
            BookmarkIndex::find_by_event_id_field,
            (index, field, event_id, max_number_of_results),
            Ok::<Vec<IndexedBookmark>, IndexError>(results),
        ),
        with_id == index@.committed.docs.filter(|doc: Doc| has_term(doc, field, event_id@)),
    ensures
        with_id.len() <= max_number_of_results ==> results@.len() == with_id.len(),
        with_id.len() > max_number_of_results ==> results@.len() == max_number_of_results,
        forall|i: int|
            0 <= i < results@.len() ==> some_doc_of(with_id, (#[trigger] results@[i])@.pointer),
{
    assert(with_id == matching(index@.committed.docs, field, event_id@));
    assert forall|i: int| 0 <= i < results@.len() implies some_doc_of(
        with_id,
        (#[trigger] results@[i])@.pointer,
    ) by {
        assert(found_views(results@)[i] == results@[i]@);
    }
}

/// A lookup of all bookmarks with an id brings each of them, however many there are. Those to be
/// removed with a bookmark are all those that are versions of it.
pub proof fn law_lookup_brings_all_bookmarks_with_the_id(
    index: &BookmarkIndex,
    field: u32,
    event_id: &EventId,
    results: Vec<IndexedBookmark>,
    to_remove: Vec<IndexedBookmark>,
)
    requires
        index@.committed.private,
        call_ensures(
            BookmarkIndex::find_all_by_event_id_field,
            (index, field, event_id),
            Ok::<Vec<IndexedBookmark>, IndexError>(results),
        ),
        call_ensures(
            BookmarkIndex::get_events_to_be_removed,
            (index, event_id),
            Ok::<Vec<IndexedBookmark>, IndexError>(to_remove),
        ),
    ensures
        lists(
            index@.committed.docs.filter(|doc: Doc| has_term(doc, field, event_id@)),
            found_views(results@),
        ),
        lists(
            index@.committed.docs.filter(
                |doc: Doc| has_term(doc, bookmark_schema().original_event_id, event_id@),
            ),
            found_views(to_remove@),
        ),
{
}

/// Whether a bookmark event was added and not yet committed is told by what was added. Where a lookup
/// failed it counts as indexed.
pub proof fn law_added_bookmarks_are_told(
    index: &BookmarkIndex,
    field: u32,
    event_id: &EventId,
    error: IndexError,
    staged: bool,
    listed: bool,
)
    requires
        call_ensures(BookmarkIndex::has_staged, (index, field, event_id), staged),
        call_ensures(
            BookmarkIndex::is_listed,
            (index, &Err::<Vec<IndexedBookmark>, IndexError>(error), event_id),
            listed,
        ),
    ensures
        field == bookmark_schema().event_id ==> (staged <==> short(event_id@) && exists|i: int|
            0 <= i < index@.pending.len() && (#[trigger] index@.pending[i]).event_id == event_id@),
        field == bookmark_schema().original_event_id ==> (staged <==> short(event_id@) && exists|
            i: int,
        |
            0 <= i < index@.pending.len() && (#[trigger] index@.pending[i]).original_event_id
                == event_id@),
        field == bookmark_schema().target_event_id ==> (staged <==> short(event_id@) && exists|
            i: int,
        |
            0 <= i < index@.pending.len() && (#[trigger] index@.pending[i]).target_event_id
                == event_id@),
        listed,
{
    let pending = index@.pending;
    let key = (field, event_id@);
    if staged {
        let i = choose|i: int| 0 <= i < pending.len() && hit(#[trigger] pending[i], key);
        assert(pending[i] == pending[i]);
    }
    assert forall|i: int|
        0 <= i < pending.len() && short(event_id@) && key_text(pending[i], field)
            == event_id@ implies staged by {
        assert(hit(pending[i], key));
    }
}

} // verus!
