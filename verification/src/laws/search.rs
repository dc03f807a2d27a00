//! What searches bring.

use tantivy::query::QueryParser;
use tantivy::Searcher;
use vstd::multiset::Multiset;
use vstd::prelude::*;
use vstd::seq_lib::group_to_multiset_ensures;

use crate::bookmark::{valid_pointer, Content, Found, Pointer};
use crate::engine::{
    engine_ranks, has_scores, has_term, matches_at, meets, page, ranks, searcher_docs, Clause, Doc,
};
use crate::execute::executed_one;
use crate::ids::score_rank;
use crate::index::{search_clauses, start_of};
use crate::laws::contents::{doc_event_id, indexed, law_added_bookmark_is_indexed, unique_ids};
use crate::lists::{lemma_filter_of_list, lemma_filter_then_map, lemma_map_of_list};
use crate::lookup::{
    lemma_answers_term, lemma_bookmark_doc, lemma_on_page, lemma_ranking_of_matched,
};
use crate::model::{
    about_documents, all_bookmarks, answers, bookmark_doc, doc_meets, doc_meets_all, doc_pointer,
    finds, is_bookmark, key_text, lists, matched, matching, pointers, pointers_of, reads_page,
    short, snapshot_of, some_doc_of, Committed, IndexModel, Operation,
};
use crate::schema::bookmark_schema;
use crate::search::{after_results, RoomSearch};
use crate::steps::lemma_found_key;

verus! {

/// Whether a snapshot and a ranking show that the results answer a query.
pub open spec fn shown_by(
    committed: Committed,
    clauses: Seq<Clause>,
    offset: int,
    limit: int,
    results: Seq<Found>,
    searcher: Searcher,
    ranking: Seq<(u32, int)>,
) -> bool {
    &&& snapshot_of(committed, searcher)
    &&& ranks(searcher, clauses, ranking)
    &&& engine_ranks(searcher, clauses, ranking)
    &&& reads_page(searcher, ranking, offset, limit, results)
}

/// What answers a query is shown by a snapshot and a ranking.
proof fn lemma_shown(
    committed: Committed,
    clauses: Seq<Clause>,
    offset: int,
    limit: int,
    results: Seq<Found>,
) -> (shown: (Searcher, Seq<(u32, int)>))
    requires
        answers(committed, clauses, offset, limit, results),
    ensures
        shown_by(committed, clauses, offset, limit, results, shown.0, shown.1),
{
    choose|searcher: Searcher, ranking: Seq<(u32, int)>|
        {
            &&& snapshot_of(committed, searcher)
            &&& #[trigger] ranks(searcher, clauses, ranking)
            &&& engine_ranks(searcher, clauses, ranking)
            &&& reads_page(searcher, ranking, offset, limit, results)
        }
}

/// A search brings no more results than were asked for.
pub proof fn law_results_are_bounded(
    committed: Committed,
    clauses: Seq<Clause>,
    offset: int,
    limit: int,
    results: Seq<Found>,
)
    requires
        0 <= offset,
        0 <= limit,
        answers(committed, clauses, offset, limit, results),
    ensures
        results.len() <= limit,
{
}

/// Whether results are, from the offset on, what the engine ranks in a snapshot, each with the score that
/// the engine gives it, and none of them has a lower score than what comes after it in that ranking.
pub open spec fn by_relevance(
    searcher: Searcher,
    clauses: Seq<Clause>,
    ranking: Seq<(u32, int)>,
    offset: int,
    results: Seq<Found>,
) -> bool {
    &&& engine_ranks(searcher, clauses, ranking)
    &&& results.len() > 0 ==> offset + results.len() <= ranking.len()
    &&& forall|i: int|
        0 <= i < results.len() ==> {
            &&& (#[trigger] results[i]).score == ranking[offset + i].0
            &&& doc_pointer(searcher_docs(searcher)[ranking[offset + i].1]) == Some(
                results[i].pointer,
            )
        }
    &&& forall|i: int, k: int|
        0 <= i < results.len() && offset + i <= k < ranking.len() ==> score_rank(
            (#[trigger] results[i]).score,
        ) >= score_rank((#[trigger] ranking[k]).0)
}

/// A search brings the most relevant bookmarks first: the results are a page of the engine's ranking,
/// with its scores, and scores descend.
pub proof fn law_results_are_by_relevance(
    committed: Committed,
    clauses: Seq<Clause>,
    offset: int,
    limit: int,
    results: Seq<Found>,
)
    requires
        0 <= offset,
        0 <= limit,
        answers(committed, clauses, offset, limit, results),
    ensures
        exists|searcher: Searcher, ranking: Seq<(u32, int)>|
            {
                &&& snapshot_of(committed, searcher)
                &&& #[trigger] by_relevance(searcher, clauses, ranking, offset, results)
                &&& results.len() < limit ==> ranking.len() <= offset + results.len()
            },
        forall|i: int, j: int|
            0 <= i < j < results.len() ==> score_rank((#[trigger] results[i]).score) >= score_rank(
                (#[trigger] results[j]).score,
            ),
{
    let (searcher, ranking) = lemma_shown(committed, clauses, offset, limit, results);
    assert forall|i: int| 0 <= i < results.len() implies {
        &&& (#[trigger] results[i]).score == ranking[offset + i].0
        &&& doc_pointer(searcher_docs(searcher)[ranking[offset + i].1]) == Some(results[i].pointer)
        &&& offset + i < ranking.len()
    } by {
        lemma_on_page(ranking, offset, limit, i);
    }
    assert forall|i: int, k: int|
        0 <= i < results.len() && offset + i <= k < ranking.len() implies score_rank(
        (#[trigger] results[i]).score,
    ) >= score_rank((#[trigger] ranking[k]).0) by {
        if offset + i < k {
            assert(ranking[offset + i].1 != ranking[k].1);
        }
    }
    if results.len() > 0 {
        assert(results[results.len() - 1].score == ranking[offset + results.len() - 1].0);
    }
    assert(by_relevance(searcher, clauses, ranking, offset, results));
    assert forall|i: int, j: int| 0 <= i < j < results.len() implies score_rank(
        (#[trigger] results[i]).score,
    ) >= score_rank((#[trigger] results[j]).score) by {
        assert(results[j].score == ranking[offset + j].0);
    }
}

/// A search in a room brings nothing but bookmarks of events of that room, whatever the query.
pub proof fn law_room_filter_holds(
    committed: Committed,
    parser: QueryParser,
    query: Seq<char>,
    room_id: Seq<char>,
    offset: int,
    limit: int,
    results: Seq<Found>,
)
    requires
        committed.private,
        all_bookmarks(committed.docs),
        0 <= offset,
        0 <= limit,
        answers(committed, search_clauses(parser, query, Some(room_id)), offset, limit, results),
    ensures
        forall|i: int|
            0 <= i < results.len() ==> (#[trigger] results[i]).pointer.target_room_id == room_id,
{
    let clauses = search_clauses(parser, query, Some(room_id));
    let field = bookmark_schema().target_room_id;
    assert(clauses.last() == Clause::Term(field, room_id));
    assert(clauses.contains(Clause::Term(field, room_id)));
    lemma_answers_term(committed, clauses, offset, limit, results, field, room_id);
    assert forall|i: int| 0 <= i < results.len() implies (#[trigger] results[i]).pointer.target_room_id
        == room_id by {
        lemma_found_key(committed, field, room_id, results[i].pointer);
    }
}

/// A search brings nothing but committed bookmarks.
pub proof fn law_results_are_committed(
    committed: Committed,
    clauses: Seq<Clause>,
    offset: int,
    limit: int,
    results: Seq<Found>,
)
    requires
        committed.private,
        0 <= offset,
        0 <= limit,
        answers(committed, clauses, offset, limit, results),
    ensures
        forall|i: int|
            0 <= i < results.len() ==> some_doc_of(
                committed.docs,
                (#[trigger] results[i]).pointer,
            ),
{
    broadcast use group_to_multiset_ensures;

    let (searcher, ranking) = lemma_shown(committed, clauses, offset, limit, results);
    let docs = searcher_docs(searcher);
    assert forall|i: int| 0 <= i < results.len() implies some_doc_of(
        committed.docs,
        (#[trigger] results[i]).pointer,
    ) by {
        lemma_on_page(ranking, offset, limit, i);
        let position = ranking[offset + i].1;
        assert(docs.contains(docs[position]));
        assert(committed.docs.contains(docs[position]));
    }
}

/// Whether a committed bookmark matches a query, as a snapshot of the index shows.
pub open spec fn matches_query(
    committed: Committed,
    parser: QueryParser,
    query: Seq<char>,
    pointer: Pointer,
) -> bool {
    exists|searcher: Searcher, position: int|
        {
            &&& snapshot_of(committed, searcher)
            &&& 0 <= position < searcher_docs(searcher).len()
            &&& #[trigger] matches_at(searcher, parser, query, position)
            &&& doc_pointer(searcher_docs(searcher)[position]) == Some(pointer)
        }
}

/// Every search for a text, however short, other than that for everything, brings nothing but bookmarks
/// that match the text, with and without a room.
pub proof fn law_results_match_the_query(
    committed: Committed,
    parser: QueryParser,
    query: Seq<char>,
    room_id: Option<Seq<char>>,
    offset: int,
    limit: int,
    results: Seq<Found>,
)
    requires
        query.len() > 0,
        query != "*"@,
        0 <= offset,
        0 <= limit,
        answers(committed, search_clauses(parser, query, room_id), offset, limit, results),
    ensures
        forall|i: int|
            0 <= i < results.len() ==> matches_query(
                committed,
                parser,
                query,
                (#[trigger] results[i]).pointer,
            ),
{
    let clauses = search_clauses(parser, query, room_id);
    let (searcher, ranking) = lemma_shown(committed, clauses, offset, limit, results);
    assert forall|i: int| 0 <= i < results.len() implies matches_query(
        committed,
        parser,
        query,
        (#[trigger] results[i]).pointer,
    ) by {
        lemma_on_page(ranking, offset, limit, i);
        let position = ranking[offset + i].1;
        assert(clauses[0] == Clause::Text(parser, query));
        assert(meets(searcher, clauses[0], position));
        assert(matches_at(searcher, parser, query, position));
    }
}

/// A document of a snapshot of a private index holds ids.
proof fn lemma_position_pointer(committed: Committed, searcher: Searcher, position: int)
    requires
        committed.private,
        all_bookmarks(committed.docs),
        snapshot_of(committed, searcher),
        0 <= position < searcher_docs(searcher).len(),
    ensures
        committed.docs.contains(searcher_docs(searcher)[position]),
        doc_pointer(searcher_docs(searcher)[position]) is Some,
        doc_event_id(searcher_docs(searcher)[position]) == Some(
            doc_pointer(searcher_docs(searcher)[position])->Some_0.event_id,
        ),
{
    broadcast use group_to_multiset_ensures;

    let doc = searcher_docs(searcher)[position];
    assert(searcher_docs(searcher).contains(doc));
    assert(committed.docs.contains(doc));
    assert(is_bookmark(doc));
    let (held, content) = choose|held: Pointer, content: Content|
        {
            &&& doc == #[trigger] bookmark_doc(held, content)
            &&& valid_pointer(held)
        };
    lemma_bookmark_doc(held, content);
}

/// The page of results that starts at an offset is a part of all results: with a limit of 3 and an
/// offset of 10 it is the 11th, the 12th and the 13th of them, if there are as many.
pub proof fn law_page_is_part_of_all_results(
    committed: Committed,
    clauses: Seq<Clause>,
    offset: int,
    limit: int,
    results: Seq<Found>,
) -> (all: Seq<Found>)
    requires
        committed.private,
        all_bookmarks(committed.docs),
        0 <= offset,
        0 <= limit,
        answers(committed, clauses, offset, limit, results),
    ensures
        answers(committed, clauses, 0, all.len() as int, all),
        results == page(all, offset, limit),
        forall|longer: int| all.len() <= longer ==> #[trigger] answers(
            committed,
            clauses,
            0,
            longer,
            all,
        ),
{
    let (searcher, ranking) = lemma_shown(committed, clauses, offset, limit, results);
    let docs = searcher_docs(searcher);
    let all = Seq::new(
        ranking.len(),
        |i: int|
            Found { pointer: doc_pointer(docs[ranking[i].1])->Some_0, score: ranking[i].0 },
    );
    assert forall|longer: int| all.len() <= longer implies #[trigger] answers(
        committed,
        clauses,
        0,
        longer,
        all,
    ) by {
        assert(page(ranking, 0, longer) =~= ranking);
        assert forall|i: int| 0 <= i < all.len() implies doc_pointer(docs[ranking[i].1]) == Some(
            (#[trigger] all[i]).pointer,
        ) && all[i].score == ranking[i].0 by {
            lemma_position_pointer(committed, searcher, ranking[i].1);
        }
        assert(reads_page(searcher, ranking, 0, longer, all));
    }
    assert(answers(committed, clauses, 0, all.len() as int, all));
    assert forall|i: int| 0 <= i < results.len() implies results[i] == page(
        all,
        offset,
        limit,
    )[i] by {
        lemma_on_page(ranking, offset, limit, i);
    }
    assert(results =~= page(all, offset, limit));
    all
}

/// A search never brings the same bookmark event twice, where no two documents are those of the same
/// event.
pub proof fn law_no_result_twice(
    committed: Committed,
    clauses: Seq<Clause>,
    offset: int,
    limit: int,
    results: Seq<Found>,
)
    requires
        committed.private,
        all_bookmarks(committed.docs),
        unique_ids(committed.docs),
        0 <= offset,
        0 <= limit,
        answers(committed, clauses, offset, limit, results),
    ensures
        forall|i: int, j: int|
            0 <= i < j < results.len() ==> (#[trigger] results[i]).pointer.event_id != (
            #[trigger] results[j]).pointer.event_id,
{
    let (searcher, ranking) = lemma_shown(committed, clauses, offset, limit, results);
    let docs = searcher_docs(searcher);
    assert forall|i: int, j: int| 0 <= i < j < results.len() implies (
    #[trigger] results[i]).pointer.event_id != (#[trigger] results[j]).pointer.event_id by {
        lemma_on_page(ranking, offset, limit, i);
        lemma_on_page(ranking, offset, limit, j);
        let a = ranking[offset + i].1;
        let b = ranking[offset + j].1;
        assert(a != b);
        lemma_position_pointer(committed, searcher, a);
        lemma_position_pointer(committed, searcher, b);
        if results[i].pointer.event_id == results[j].pointer.event_id {
            assert(docs[a] == docs[b]);
            lemma_two_positions(docs, a, b);
            assert(committed.docs.count(docs[a]) <= 1);
        }
    }
}

/// What is at two positions of a list is twice in the list.
proof fn lemma_two_positions(docs: Seq<Doc>, a: int, b: int)
    requires
        0 <= a < docs.len(),
        0 <= b < docs.len(),
        a != b,
        docs[a] == docs[b],
    ensures
        docs.to_multiset().count(docs[a]) >= 2,
{
    broadcast use group_to_multiset_ensures;

    let low = if a < b {
        a
    } else {
        b
    };
    let high = if a < b {
        b
    } else {
        a
    };
    let less = docs.remove(low);
    assert(less[high - 1] == docs[a]);
    assert(less.contains(docs[a]));
    assert(less.to_multiset().count(docs[a]) > 0);
    vstd::seq_lib::to_multiset_remove(docs, low);
    assert(docs.contains(docs[a]));
    assert(docs.to_multiset().count(docs[a]) > 0);
    assert(docs.to_multiset().remove(docs[a]).count(docs[a]) == docs.to_multiset().count(docs[a])
        - 1);
}

/// Whether a query speaks of each bookmark on its own: it stands for all bookmarks, or has no asterisks,
/// and no boosts but small ones.
pub open spec fn is_plain_query(query: Seq<char>) -> bool {
    query.len() == 0 || query == "*"@ || !query.contains('*') && has_scores(query)
}

/// The documents of the bookmarks that match a query, in a room if one is given.
pub open spec fn matches_in(
    committed: Committed,
    parser: QueryParser,
    query: Seq<char>,
    room_id: Option<Seq<char>>,
) -> Multiset<Doc> {
    matched(committed.docs, search_clauses(parser, query, room_id))
}

/// The part of a number of results that is on a page.
pub open spec fn on_page(count: int, offset: int, limit: int) -> int {
    if count <= offset {
        0
    } else if count - offset <= limit {
        count - offset
    } else {
        limit
    }
}

/// A search brings as many results as bookmarks match the query, from the offset and up to the limit,
/// in all rooms or in one.
pub proof fn law_search_is_exhaustive(
    committed: Committed,
    parser: QueryParser,
    query: Seq<char>,
    room_id: Option<Seq<char>>,
    offset: int,
    limit: int,
    results: Seq<Found>,
)
    requires
        committed.private,
        all_bookmarks(committed.docs),
        is_plain_query(query),
        0 <= offset,
        0 <= limit,
        answers(committed, search_clauses(parser, query, room_id), offset, limit, results),
    ensures
        results.len() == on_page(
            matches_in(committed, parser, query, room_id).len() as int,
            offset,
            limit,
        ),
{
    let clauses = search_clauses(parser, query, room_id);
    let (searcher, ranking) = lemma_shown(committed, clauses, offset, limit, results);
    assert(about_documents(clauses));
    lemma_ranking_of_matched(committed, searcher, clauses, ranking);
}

/// A search that is not cut off brings every bookmark that matches the query, and each once.
pub proof fn law_every_match_is_found(
    committed: Committed,
    parser: QueryParser,
    query: Seq<char>,
    room_id: Option<Seq<char>>,
    limit: int,
    results: Seq<Found>,
)
    requires
        committed.private,
        all_bookmarks(committed.docs),
        is_plain_query(query),
        matches_in(committed, parser, query, room_id).len() <= limit,
        answers(committed, search_clauses(parser, query, room_id), 0, limit, results),
    ensures
        lists(matches_in(committed, parser, query, room_id), results),
{
    let clauses = search_clauses(parser, query, room_id);
    let (searcher, ranking) = lemma_shown(committed, clauses, 0, limit, results);
    let docs = searcher_docs(searcher);
    assert(about_documents(clauses));
    lemma_ranking_of_matched(committed, searcher, clauses, ranking);
    let listed = ranking.map_values(|entry: (u32, int)| docs[entry.1]);
    assert(page(ranking, 0, limit) =~= ranking);
    assert(pointers_of(listed, results));
}

/// A search for everything is about all bookmarks, or all of a room.
pub proof fn law_everything_matches(
    committed: Committed,
    parser: QueryParser,
    query: Seq<char>,
    room_id: Seq<char>,
)
    requires
        query.len() == 0 || query == "*"@,
    ensures
        matches_in(committed, parser, query, None) == committed.docs,
        matches_in(committed, parser, query, Some(room_id)) == matching(
            committed.docs,
            bookmark_schema().target_room_id,
            room_id,
        ),
{
    let field = bookmark_schema().target_room_id;
    let in_room = search_clauses(parser, query, Some(room_id));
    assert(in_room =~= seq![Clause::Term(field, room_id)]);
    assert forall|doc: Doc| doc_meets_all(in_room, doc) == has_term(doc, field, room_id) by {
        assert(doc_meets(in_room[0], doc) == has_term(doc, field, room_id));
    }
    assert(matches_in(committed, parser, query, None) =~= committed.docs);
    assert(matches_in(committed, parser, query, Some(room_id)) =~= matching(
        committed.docs,
        field,
        room_id,
    ));
}

/// A search in a room is about those of the bookmarks that a search in all rooms is about that are of
/// the room.
pub proof fn law_room_filter_selects(
    committed: Committed,
    parser: QueryParser,
    query: Seq<char>,
    room_id: Seq<char>,
)
    ensures
        matches_in(committed, parser, query, Some(room_id)) == matching(
            matches_in(committed, parser, query, None),
            bookmark_schema().target_room_id,
            room_id,
        ),
{
    let field = bookmark_schema().target_room_id;
    let in_room = search_clauses(parser, query, Some(room_id));
    let anywhere = search_clauses(parser, query, None);
    assert forall|doc: Doc| #[trigger] doc_meets_all(in_room, doc) == (doc_meets_all(anywhere, doc)
        && has_term(doc, field, room_id)) by {
        assert(in_room.last() == Clause::Term(field, room_id));
        if doc_meets_all(in_room, doc) {
            assert(doc_meets(in_room[in_room.len() - 1], doc));
            assert(doc_meets(in_room[0], doc));
        }
        if doc_meets_all(anywhere, doc) && has_term(doc, field, room_id) {
            assert(doc_meets(anywhere[0], doc));
            assert(doc_meets(in_room[0], doc));
        }
    }
    assert(matches_in(committed, parser, query, Some(room_id)) =~= matching(
        matches_in(committed, parser, query, None),
        field,
        room_id,
    ));
}

/// The results of a search in a room are those of the search in all rooms that are of the room, where
/// neither is cut off.
pub proof fn law_room_search_is_part_of_search(
    committed: Committed,
    parser: QueryParser,
    query: Seq<char>,
    room_id: Seq<char>,
    all_limit: int,
    all: Seq<Found>,
    limit: int,
    results: Seq<Found>,
)
    requires
        committed.private,
        all_bookmarks(committed.docs),
        is_plain_query(query),
        short(room_id),
        answers(committed, search_clauses(parser, query, None), 0, all_limit, all),
        all.len() < all_limit,
        answers(committed, search_clauses(parser, query, Some(room_id)), 0, limit, results),
        results.len() < limit,
    ensures
        pointers(results).to_multiset() == pointers(all).to_multiset().filter(
            |pointer: Pointer| pointer.target_room_id == room_id,
        ),
{
    broadcast use group_to_multiset_ensures;

    let field = bookmark_schema().target_room_id;
    law_search_is_exhaustive(committed, parser, query, None, 0, all_limit, all);
    law_every_match_is_found(committed, parser, query, None, all_limit, all);
    law_search_is_exhaustive(committed, parser, query, Some(room_id), 0, limit, results);
    law_every_match_is_found(committed, parser, query, Some(room_id), limit, results);
    law_room_filter_selects(committed, parser, query, room_id);
    let anywhere = matches_in(committed, parser, query, None);
    let in_room = matches_in(committed, parser, query, Some(room_id));
    let pred = |doc: Doc| has_term(doc, field, room_id);
    let of_room = |pointer: Pointer| pointer.target_room_id == room_id;
    let id = |doc: Doc| doc_pointer(doc)->Some_0;
    let all_docs = choose|listed: Seq<Doc>| #[trigger]
        listed.to_multiset() == anywhere && pointers_of(listed, all);
    let docs = choose|listed: Seq<Doc>| #[trigger]
        listed.to_multiset() == in_room && pointers_of(listed, results);
    assert(pointers(all) =~= all_docs.map_values(id));
    assert(pointers(results) =~= docs.map_values(id));
    assert forall|doc: Doc| #[trigger] anywhere.contains(doc) implies pred(doc) == of_room(id(doc)) by {
        assert(committed.docs.contains(doc));
        assert(is_bookmark(doc));
        let (held, content) = choose|held: Pointer, content: Content|
            {
                &&& doc == #[trigger] bookmark_doc(held, content)
                &&& valid_pointer(held)
            };
        lemma_bookmark_doc(held, content);
    }
    assert forall|i: int| 0 <= i < all_docs.len() implies pred(#[trigger] all_docs[i]) == of_room(
        id(all_docs[i]),
    ) by {
        assert(all_docs.contains(all_docs[i]));
        assert(anywhere.contains(all_docs[i]));
    }
    lemma_filter_of_list(all_docs, pred);
    lemma_map_of_list(docs, all_docs.filter(pred), id);
    lemma_filter_then_map(all_docs, pred, of_room, id);
    lemma_filter_of_list(pointers(all), of_room);
}

/// A bookmark that was added is found by the event that it bookmarks, and by its room.
pub proof fn law_added_bookmark_is_found(
    before: IndexModel,
    pointer: Pointer,
    content: Content,
    after: IndexModel,
    field: u32,
    limit: int,
    results: Seq<Found>,
)
    requires
        before.committed.private,
        all_bookmarks(before.committed.docs),
        valid_pointer(pointer),
        short(pointer.event_id),
        !indexed(before.committed.docs, pointer.event_id),
        executed_one(before, Operation::Add(pointer, content), after),
        field < 4,
        short(key_text(pointer, field)),
        0 < limit,
        finds(after.committed.docs, field, key_text(pointer, field), limit, results),
    ensures
        results.len() > 0,
        matching(after.committed.docs, field, key_text(pointer, field)).len() <= limit
            ==> exists|i: int|
            0 <= i < results.len() && (#[trigger] results[i]).pointer == pointer,
{
    let text = key_text(pointer, field);
    let doc = bookmark_doc(pointer, content);
    law_added_bookmark_is_indexed(before, pointer, content, after);
    lemma_bookmark_doc(pointer, content);
    let found = matching(after.committed.docs, field, text);
    assert(after.committed.docs.contains(doc));
    assert(has_term(doc, field, text));
    assert(found.contains(doc));
    assert(found =~= found.remove(doc).insert(doc));
    if found.len() <= limit {
        let i = choose|i: int|
            0 <= i < results.len() && doc_pointer(doc) == Some((#[trigger] results[i]).pointer);
        assert(results[i].pointer == pointer);
    }
}

// ---------------------------------------------------------------------------------------------
// Pages, one after the other
// ---------------------------------------------------------------------------------------------

/// Whether batches are those of an iterator over the results in a room, as long as each is a page of
/// the same list of results.
pub open spec fn batches_of(
    list: Seq<Found>,
    states: Seq<RoomSearch>,
    batches: Seq<Seq<Found>>,
) -> bool {
    &&& states.len() == batches.len() + 1
    &&& forall|i: int|
        0 <= i < batches.len() ==> is_batch(list, states[i], #[trigger] batches[i], states[i + 1])
}

/// Whether one batch is the page of a list that an iterator asks for, and leads it on.
pub open spec fn is_batch(
    list: Seq<Found>,
    before: RoomSearch,
    batch: Seq<Found>,
    after: RoomSearch,
) -> bool {
    &&& batch == page(list, start_of(before.offset), before.num_results_per_batch as int)
    &&& start_of(before.offset) + batch.len() <= usize::MAX
    &&& after == after_results(before, batch.len())
}

/// The batches of an iterator over the results in a room make up the whole list of results, as long
/// as the engine does not rank them anew in between: each batch follows the last, and once one is
/// empty there is nothing left.
pub proof fn law_batches_make_up_the_list(
    list: Seq<Found>,
    states: Seq<RoomSearch>,
    batches: Seq<Seq<Found>>,
)
    requires
        batches_of(list, states, batches),
        states[0].offset is None,
        0 < states[0].num_results_per_batch,
    ensures
        batches.flatten() == list.take(start_of(states.last().offset)),
        0 <= start_of(states.last().offset) <= list.len(),
        states.last().num_results_per_batch == states[0].num_results_per_batch,
        batches.len() > 0 && batches.last().len() == 0 ==> batches.flatten() == list,
    decreases batches.len(),
{
    if batches.len() == 0 {
        assert(batches =~= Seq::empty());
        assert(batches.flatten() =~= Seq::empty());
        assert(list.take(0) =~= Seq::empty());
    } else {
        let n = batches.len() - 1;
        let fewer = batches.drop_last();
        let fewer_states = states.drop_last();
        assert forall|i: int| 0 <= i < fewer.len() implies is_batch(
            list,
            fewer_states[i],
            #[trigger] fewer[i],
            fewer_states[i + 1],
        ) by {
            assert(fewer[i] == batches[i]);
        }
        law_batches_make_up_the_list(list, fewer_states, fewer);
        assert(is_batch(list, states[n], batches[n], states[n + 1]));
        let start = start_of(states[n].offset);
        let end = start + batches[n].len();
        batches.lemma_flatten_and_flatten_alt_are_equivalent();
        fewer.lemma_flatten_and_flatten_alt_are_equivalent();
        assert(batches.flatten() == fewer.flatten() + batches.last());
        assert(list.take(end) =~= list.take(start) + batches[n]);
        if batches.last().len() == 0 {
            assert(list.take(start) =~= list);
        }
    }
}

/// Whether a list is what the engine makes of the conditions, and it does not rank otherwise: whenever
/// the index is asked, as it is, the bookmarks that meet the conditions come in this order, with these
/// scores.
pub open spec fn ranked_as(committed: Committed, clauses: Seq<Clause>, list: Seq<Found>) -> bool {
    &&& answers(committed, clauses, 0, (list.len() + 1) as int, list)
    &&& forall|searcher: Searcher, ranking: Seq<(u32, int)>|
        {
            &&& snapshot_of(committed, searcher)
            &&& #[trigger] ranks(searcher, clauses, ranking)
            &&& engine_ranks(searcher, clauses, ranking)
        } ==> reads_page(searcher, ranking, 0, ranking.len() as int, list)
}

/// Results are a page of one list, as long as the engine does not rank otherwise.
pub proof fn law_results_are_of_one_list(
    committed: Committed,
    clauses: Seq<Clause>,
    list: Seq<Found>,
    offset: int,
    limit: int,
    results: Seq<Found>,
)
    requires
        0 <= offset,
        0 <= limit,
        ranked_as(committed, clauses, list),
        answers(committed, clauses, offset, limit, results),
    ensures
        results == page(list, offset, limit),
{
    let (searcher, ranking) = lemma_shown(committed, clauses, offset, limit, results);
    assert(reads_page(searcher, ranking, 0, ranking.len() as int, list));
    assert(page(ranking, 0, ranking.len() as int) =~= ranking);
    assert forall|i: int| 0 <= i < results.len() implies results[i] == page(
        list,
        offset,
        limit,
    )[i] by {
        lemma_on_page(ranking, offset, limit, i);
        assert(list[offset + i].score == ranking[offset + i].0);
        assert(results[i].score == ranking[offset + i].0);
        assert(results[i] =~= list[offset + i]);
    }
    assert(results =~= page(list, offset, limit));
}

/// The one list of results has one entry for each bookmark that matches the query.
pub proof fn law_list_is_complete(
    committed: Committed,
    parser: QueryParser,
    query: Seq<char>,
    room_id: Option<Seq<char>>,
    list: Seq<Found>,
)
    requires
        committed.private,
        all_bookmarks(committed.docs),
        is_plain_query(query),
        ranked_as(committed, search_clauses(parser, query, room_id), list),
    ensures
        lists(matches_in(committed, parser, query, room_id), list),
{
    let limit = list.len() + 1;
    law_search_is_exhaustive(committed, parser, query, room_id, 0, limit as int, list);
    law_every_match_is_found(committed, parser, query, room_id, limit as int, list);
}

/// Whether batches are those of an iterator over the results in a room, each of them an answer of an
/// index that does not change.
pub open spec fn answered_batches(
    committed: Committed,
    parser: QueryParser,
    states: Seq<RoomSearch>,
    batches: Seq<Seq<Found>>,
) -> bool {
    &&& states.len() == batches.len() + 1
    &&& forall|i: int|
        0 <= i < batches.len() ==> is_answered_batch(
            committed,
            parser,
            states[i],
            #[trigger] batches[i],
            states[i + 1],
        )
}

/// Whether one batch answers what an iterator asks for, and leads it on.
pub open spec fn is_answered_batch(
    committed: Committed,
    parser: QueryParser,
    before: RoomSearch,
    batch: Seq<Found>,
    after: RoomSearch,
) -> bool {
    &&& answers(
        committed,
        search_clauses(parser, before.query, Some(before.room_id)),
        start_of(before.offset),
        before.num_results_per_batch as int,
        batch,
    )
    &&& start_of(before.offset) + batch.len() <= usize::MAX
    &&& after == after_results(before, batch.len())
}

/// The batches of a search in a room, until one is empty, have together as many results as bookmarks of
/// the room match the query.
pub proof fn law_batches_are_as_many_as_matches(
    committed: Committed,
    parser: QueryParser,
    states: Seq<RoomSearch>,
    batches: Seq<Seq<Found>>,
)
    requires
        committed.private,
        all_bookmarks(committed.docs),
        is_plain_query(states[0].query),
        states[0].offset is None,
        0 < states[0].num_results_per_batch,
        answered_batches(committed, parser, states, batches),
    ensures
        ({
            let count = matches_in(
                committed,
                parser,
                states[0].query,
                Some(states[0].room_id),
            ).len();
            &&& batches.flatten().len() == start_of(states.last().offset) <= count
            &&& batches.len() > 0 && batches.last().len() == 0 ==> batches.flatten().len() == count
        }),
        states.last().query == states[0].query,
        states.last().room_id == states[0].room_id,
        states.last().num_results_per_batch == states[0].num_results_per_batch,
    decreases batches.len(),
{
    if batches.len() == 0 {
        assert(batches =~= Seq::empty());
        assert(batches.flatten() =~= Seq::empty());
    } else {
        let n = batches.len() - 1;
        let fewer = batches.drop_last();
        let fewer_states = states.drop_last();
        assert forall|i: int| 0 <= i < fewer.len() implies is_answered_batch(
            committed,
            parser,
            fewer_states[i],
            #[trigger] fewer[i],
            fewer_states[i + 1],
        ) by {
            assert(fewer[i] == batches[i]);
        }
        law_batches_are_as_many_as_matches(committed, parser, fewer_states, fewer);
        assert(is_answered_batch(committed, parser, states[n], batches[n], states[n + 1]));
        batches.lemma_flatten_and_flatten_alt_are_equivalent();
        fewer.lemma_flatten_and_flatten_alt_are_equivalent();
        assert(batches.flatten() == fewer.flatten() + batches.last());
        law_search_is_exhaustive(
            committed,
            parser,
            states[n].query,
            Some(states[n].room_id),
            start_of(states[n].offset),
            states[n].num_results_per_batch as int,
            batches[n],
        );
    }
}

/// An iterator asks the same question throughout.
proof fn lemma_same_question(
    committed: Committed,
    parser: QueryParser,
    states: Seq<RoomSearch>,
    batches: Seq<Seq<Found>>,
    n: int,
)
    requires
        answered_batches(committed, parser, states, batches),
        0 <= n <= batches.len(),
    ensures
        states[n].query == states[0].query,
        states[n].room_id == states[0].room_id,
    decreases n,
{
    if n > 0 {
        lemma_same_question(committed, parser, states, batches, n - 1);
        assert(is_answered_batch(
            committed,
            parser,
            states[n - 1],
            batches[n - 1],
            states[n - 1 + 1],
        ));
    }
}

/// The batches of a search in a room, until one is empty, bring every bookmark of the room that matches
/// the query once, by relevance, as long as the index does not change and the engine does not rank
/// otherwise in between.
pub proof fn law_batches_bring_every_match_once(
    committed: Committed,
    parser: QueryParser,
    list: Seq<Found>,
    states: Seq<RoomSearch>,
    batches: Seq<Seq<Found>>,
)
    requires
        committed.private,
        all_bookmarks(committed.docs),
        is_plain_query(states[0].query),
        ranked_as(
            committed,
            search_clauses(parser, states[0].query, Some(states[0].room_id)),
            list,
        ),
        states[0].offset is None,
        0 < states[0].num_results_per_batch,
        answered_batches(committed, parser, states, batches),
        batches.len() > 0,
        batches.last().len() == 0,
    ensures
        batches.flatten() == list,
        lists(matches_in(committed, parser, states[0].query, Some(states[0].room_id)), list),
{
    assert forall|i: int| 0 <= i < batches.len() implies is_batch(
        list,
        states[i],
        #[trigger] batches[i],
        states[i + 1],
    ) by {
        assert(is_answered_batch(committed, parser, states[i], batches[i], states[i + 1]));
        lemma_same_question(committed, parser, states, batches, i);
        law_results_are_of_one_list(
            committed,
            search_clauses(parser, states[0].query, Some(states[0].room_id)),
            list,
            start_of(states[i].offset),
            states[i].num_results_per_batch as int,
            batches[i],
        );
    }
    law_batches_make_up_the_list(list, states, batches);
    law_list_is_complete(
        committed,
        parser,
        states[0].query,
        Some(states[0].room_id),
        list,
    );
}

} // verus!
