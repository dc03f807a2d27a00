//! Searches for the bookmarks of one room, page by page.

use vstd::hash_set::StringHashSet;
use vstd::prelude::*;

use crate::bookmark::{found_views, Found, IndexedBookmark};
use crate::engine::{engine_ranks, ranks, Clause, Doc, MAX_RESULT_WINDOW};
use crate::error::IndexError;
use crate::ids::EventId;
use crate::index::{is_wildcard, page_fits, readable, search_clauses, start_of, BookmarkIndex};
use crate::laws::search::law_results_are_bounded;
use crate::lookup::lemma_lookup_finds;
use crate::model::{
    answers, doc_pointer, finds, matching, reads_page, snapshot_of, some_doc_of, Committed,
};
use crate::nesting::is_shallow;
use crate::rooms::Room;
use crate::schema::bookmark_schema;

verus! {

/// The number of bookmarks that are asked for first where all of a room are collected.
pub const BATCH_SIZE: usize = 100;

/// The ids of events, as texts.
pub open spec fn id_texts(ids: Seq<EventId>) -> Seq<Seq<char>> {
    ids.map_values(|id: EventId| id@)
}

/// Whether an event is the target of a committed bookmark of the room.
pub open spec fn bookmarked_in(committed: Committed, room_id: Seq<char>, target: Seq<char>) -> bool {
    exists|doc: Doc| #[trigger]
        matching(committed.docs, bookmark_schema().target_room_id, room_id).contains(doc)
            && doc_pointer(doc) is Some && doc_pointer(doc)->Some_0.target_event_id == target
}

/// Whether one of the bookmarks points at the given event.
pub open spec fn points_at(results: Seq<Found>, target: Seq<char>) -> bool {
    exists|i: int| 0 <= i < results.len() && (#[trigger] results[i]).pointer.target_event_id == target
}

/// The ids of the events that bookmarks point at, none of them twice.
pub fn distinct_targets(bookmarks: &Vec<IndexedBookmark>) -> (event_ids: Vec<EventId>)
    ensures
        id_texts(event_ids@).no_duplicates(),
        forall|id: Seq<char>| #[trigger]
            id_texts(event_ids@).contains(id) <==> points_at(found_views(bookmarks@), id),
{
    let ghost views = found_views(bookmarks@);
    let mut seen = StringHashSet::new();
    let mut event_ids: Vec<EventId> = Vec::new();
    assert(id_texts(event_ids@) =~= Seq::empty());
    let mut i: usize = 0;
    while i < bookmarks.len()
        invariant
            i <= bookmarks@.len(),
            views == found_views(bookmarks@),
            id_texts(event_ids@).no_duplicates(),
            forall|id: Seq<char>|
                seen@.contains(id) <==> #[trigger] id_texts(event_ids@).contains(id),
            forall|id: Seq<char>| #[trigger]
                id_texts(event_ids@).contains(id) <==> points_at(views.take(i as int), id),
        decreases bookmarks@.len() - i,
    {
        let ghost texts = id_texts(event_ids@);
        let target = bookmarks[i].target_event_id.clone();
        assert(views[i as int] == bookmarks@[i as int]@);
        proof {
            lemma_points_at_take(views, i as int);
        }
        if !seen.contains(target.as_str()) {
            seen.insert(target.as_str().to_owned());
            event_ids.push(target);
            proof {
                lemma_one_more(texts, target@);
                assert(id_texts(event_ids@) =~= texts.push(target@));
            }
        }
        i += 1;
    }
    assert(views.take(i as int) =~= views);
    event_ids
}

/// The events that one more bookmark points at.
proof fn lemma_points_at_take(results: Seq<Found>, i: int)
    requires
        0 <= i < results.len(),
    ensures
        forall|id: Seq<char>| #[trigger]
            points_at(results.take(i + 1), id) <==> points_at(results.take(i), id) || id
                == results[i].pointer.target_event_id,
{
    let less = results.take(i);
    let more = results.take(i + 1);
    assert forall|id: Seq<char>| #[trigger] points_at(more, id) <==> points_at(less, id) || id
        == results[i].pointer.target_event_id by {
        if points_at(less, id) {
            let k = choose|k: int|
                0 <= k < less.len() && (#[trigger] less[k]).pointer.target_event_id == id;
            assert(more[k] == less[k]);
        }
        assert(more[i] == results[i]);
        if points_at(more, id) {
            let k = choose|k: int|
                0 <= k < more.len() && (#[trigger] more[k]).pointer.target_event_id == id;
            if k < i {
                assert(less[k] == more[k]);
            }
        }
    }
}

/// Whether the given events are those that all bookmarks of a room, as one search finds them, point
/// at.
pub open spec fn collected(index: BookmarkIndex, room_id: Seq<char>, ids: Seq<Seq<char>>) -> bool {
    exists|limit: int, results: Seq<Found>|
        {
            &&& #[trigger] answers(
                index@.committed,
                search_clauses(index.parser(), "*"@, Some(room_id)),
                0,
                limit,
                results,
            )
            &&& results.len() < limit
            &&& forall|id: Seq<char>| #[trigger] ids.contains(id) <==> points_at(results, id)
        }
}

impl Room {
    /// The ids of the events of this room that are currently bookmarked, none of them twice. These are
    /// the ids of the first versions of the events.
    ///
    /// Pages that are asked for one after the other may be pages of different snapshots, so the
    /// bookmarks are those of a single page, which is asked for anew, with more room, for as long as
    /// it comes back full.
    pub fn bookmarked_event_ids(&self, index: &BookmarkIndex) -> (event_ids: Result<
        Vec<EventId>,
        IndexError,
    >)
        requires
            index.wf(),
        ensures
            match event_ids {
                Ok(ids) => {
                    &&& id_texts(ids@).no_duplicates()
                    &&& collected(*index, self.room_id@, id_texts(ids@))
                    &&& index@.committed.private ==> forall|id: Seq<char>| #[trigger]
                        id_texts(ids@).contains(id) <==> bookmarked_in(
                            index@.committed,
                            self.room_id@,
                            id,
                        )
                },
                Err(error) => {
                    ||| error is TantivyError
                    ||| error is IdParsing && !index@.committed.private
                    ||| error is IO && (index@.committed.private ==> MAX_RESULT_WINDOW <= matching(
                        index@.committed.docs,
                        bookmark_schema().target_room_id,
                        self.room_id@,
                    ).len())
                },
            },
    {
        let ghost committed = index@.committed;
        let ghost room_id = self.room_id@;
        let ghost field = bookmark_schema().target_room_id;
        let mut limit: usize = BATCH_SIZE;
        loop
            invariant
                index.wf(),
                committed == index@.committed,
                room_id == self.room_id@,
                field == bookmark_schema().target_room_id,
                0 < limit <= MAX_RESULT_WINDOW,
            decreases MAX_RESULT_WINDOW - limit,
        {
            let batch = match self.search_room_bookmarks(index, "*", limit, None) {
                Ok(batch) => batch,
                Err(error) => return Err(error),
            };
            let ghost views = found_views(batch@);
            proof {
                let clauses = search_clauses(index.parser(), "*"@, Some(room_id));
                assert(clauses =~= seq![Clause::Term(field, room_id)]);
                if committed.private {
                    lemma_first_page(committed, field, room_id, limit as int, views);
                }
            }
            if batch.len() < limit {
                let event_ids = distinct_targets(&batch);
                proof {
                    assert(views.len() < limit);
                    assert(collected(*index, room_id, id_texts(event_ids@)));
                    if committed.private {
                        lemma_all_found(committed, room_id, limit as int, views);
                    }
                }
                return Ok(event_ids);
            }
            if limit == MAX_RESULT_WINDOW {
                return Err(IndexError::IO("too many bookmarks".to_owned()));
            }
            limit = if limit > MAX_RESULT_WINDOW / 2 {
                MAX_RESULT_WINDOW
            } else {
                2 * limit
            };
        }
    }
}

/// The first page of the bookmarks with a term is what a lookup of the term finds.
proof fn lemma_first_page(
    committed: Committed,
    field: u32,
    text: Seq<char>,
    limit: int,
    results: Seq<Found>,
)
    requires
        committed.private,
        0 <= limit,
        answers(committed, seq![Clause::Term(field, text)], 0, limit, results),
    ensures
        finds(committed.docs, field, text, limit, results),
{
    let clauses = seq![Clause::Term(field, text)];
    let (searcher, ranking) = choose|searcher, ranking|
        {
            &&& snapshot_of(committed, searcher)
            &&& #[trigger] ranks(searcher, clauses, ranking)
            &&& engine_ranks(searcher, clauses, ranking)
            &&& reads_page(searcher, ranking, 0, limit, results)
        };
    lemma_lookup_finds(searcher, field, text, ranking, limit, results);
}

/// Where a page of the bookmarks of a room is not full, they point at all bookmarked events.
proof fn lemma_all_found(committed: Committed, room_id: Seq<char>, limit: int, results: Seq<Found>)
    requires
        finds(committed.docs, bookmark_schema().target_room_id, room_id, limit, results),
        results.len() < limit,
    ensures
        forall|id: Seq<char>| #[trigger]
            bookmarked_in(committed, room_id, id) <==> points_at(results, id),
{
    let found = matching(committed.docs, bookmark_schema().target_room_id, room_id);
    assert forall|id: Seq<char>| #[trigger] bookmarked_in(committed, room_id, id) <==> points_at(
        results,
        id,
    ) by {
        if bookmarked_in(committed, room_id, id) {
            let doc = choose|doc: Doc| #[trigger]
                found.contains(doc) && doc_pointer(doc) is Some && doc_pointer(
                    doc,
                )->Some_0.target_event_id == id;
            let k = choose|k: int|
                0 <= k < results.len() && doc_pointer(doc) == Some((#[trigger] results[k]).pointer);
            assert(results[k].pointer.target_event_id == id);
        }
        if points_at(results, id) {
            let k = choose|k: int|
                0 <= k < results.len() && (#[trigger] results[k]).pointer.target_event_id == id;
            assert(some_doc_of(found, results[k].pointer));
        }
    }
}

/// A list without duplicates, and one more element that it does not contain.
proof fn lemma_one_more(texts: Seq<Seq<char>>, text: Seq<char>)
    requires
        texts.no_duplicates(),
        !texts.contains(text),
    ensures
        texts.push(text).no_duplicates(),
        forall|other: Seq<char>|
            #![trigger texts.push(text).contains(other)]
            texts.push(text).contains(other) <==> texts.contains(other) || other == text,
{
    let more = texts.push(text);
    assert forall|other: Seq<char>|
        #![trigger more.contains(other)]
        more.contains(other) <==> texts.contains(other) || other == text by {
        if texts.contains(other) {
            let i = choose|i: int| 0 <= i < texts.len() && texts[i] == other;
            assert(more[i] == other);
        }
        assert(more[texts.len() as int] == text);
        if more.contains(other) {
            let i = choose|i: int| 0 <= i < more.len() && more[i] == other;
            if i < texts.len() {
                assert(texts[i] == other);
            }
        }
    }
}

/// An iterator over the results of a search in a single room.
#[derive(Debug)]
pub struct BookmarkSearchIterator {
    /// The room in which the search is performed.
    room: Room,
    /// The search query.
    query: String,
    /// Where the next results start, or nothing before the first ones were asked for.
    offset: Option<usize>,
    /// Whether there are no more results.
    is_done: bool,
    /// The number of results, at most, per batch.
    num_results_per_batch: usize,
}

/// What an iterator over the results in a room holds.
#[verifier::ext_equal]
pub struct RoomSearch {
    pub room_id: Seq<char>,
    pub query: Seq<char>,
    pub offset: Option<usize>,
    pub is_done: bool,
    pub num_results_per_batch: usize,
}

impl View for BookmarkSearchIterator {
    type V = RoomSearch;

    closed spec fn view(&self) -> RoomSearch {
        RoomSearch {
            room_id: self.room.room_id@,
            query: self.query@,
            offset: self.offset,
            is_done: self.is_done,
            num_results_per_batch: self.num_results_per_batch,
        }
    }
}

/// The offset after more results, which is past them.
pub open spec fn moved_on(offset: Option<usize>, count: nat) -> Option<usize> {
    Some((start_of(offset) + count) as usize)
}

/// What results make of a search: without any it is done, and otherwise it goes on after them.
pub open spec fn after_results(search: RoomSearch, count: nat) -> RoomSearch {
    if count == 0 {
        RoomSearch { is_done: true, ..search }
    } else {
        RoomSearch { offset: moved_on(search.offset, count), ..search }
    }
}

impl Room {
    /// Searches for bookmarks in this room that match the query, and returns an iterator over the
    /// results.
    pub fn search_room_bookmarks_iterator(
        &self,
        query: String,
        num_results_per_batch: usize,
    ) -> (iterator: BookmarkSearchIterator)
        ensures
            iterator@ == (RoomSearch {
                room_id: self.room_id@,
                query: query@,
                offset: None,
                is_done: false,
                num_results_per_batch,
            }),
    {
        BookmarkSearchIterator {
            room: self.clone(),
            query,
            offset: None,
            is_done: false,
            num_results_per_batch,
        }
    }
}

impl BookmarkSearchIterator {
    /// Whether there are no more results.
    pub fn is_done(&self) -> (done: bool)
        ensures
            done == self@.is_done,
    {
        self.is_done
    }

    /// Whether the next page can be asked for: it is not empty and does not end beyond the farthest
    /// one.
    pub fn can_continue(&self) -> (fits: bool)
        ensures
            fits == page_fits(self@.num_results_per_batch, self@.offset),
    {
        let offset: usize = match self.offset {
            Some(offset) => offset,
            None => 0,
        };
        0 < self.num_results_per_batch && self.num_results_per_batch <= MAX_RESULT_WINDOW && offset
            <= MAX_RESULT_WINDOW - self.num_results_per_batch
    }

    /// Takes note of the results of the search at the current offset, and passes them on.
    pub fn accept(&mut self, results: Vec<IndexedBookmark>) -> (batch: Option<
        Vec<IndexedBookmark>,
    >)
        requires
            start_of(old(self)@.offset) + results@.len() <= usize::MAX,
        ensures
            final(self)@ == after_results(old(self)@, results@.len()),
            batch == if results@.len() == 0 {
                None
            } else {
                Some(results)
            },
    {
        if results.len() == 0 {
            self.is_done = true;
            None
        } else {
            let offset: usize = match self.offset {
                Some(offset) => offset,
                None => 0,
            };
            self.offset = Some(offset + results.len());
            Some(results)
        }
    }

    /// The next batch of bookmarks that match the query, or nothing if there are no more results.
    pub fn next(&mut self, index: &BookmarkIndex) -> (batch: Result<
        Option<Vec<IndexedBookmark>>,
        IndexError,
    >)
        requires
            index.wf(),
            old(self)@.is_done || page_fits(
                old(self)@.num_results_per_batch,
                old(self)@.offset,
            ),
        ensures
            old(self)@.is_done ==> batch == Ok::<Option<Vec<IndexedBookmark>>, IndexError>(None)
                && final(self)@ == old(self)@,
            !old(self)@.is_done ==> {
                &&& (batch matches Err(error) && error is QueryTooDeep) <==> !is_wildcard(
                    old(self)@.query,
                ) && !is_shallow(old(self)@.query)
                &&& (batch matches Err(error) && error is QueryParserError) <==> is_shallow(
                    old(self)@.query,
                ) && !readable(index.parser(), old(self)@.query)
                &&& match batch {
                    Ok(found) => {
                        let results = match found {
                            Some(bookmarks) => found_views(bookmarks@),
                            None => Seq::<Found>::empty(),
                        };
                        &&& found is None <==> results.len() == 0
                        &&& answers(
                            index@.committed,
                            search_clauses(
                                index.parser(),
                                old(self)@.query,
                                Some(old(self)@.room_id),
                            ),
                            start_of(old(self)@.offset),
                            old(self)@.num_results_per_batch as int,
                            results,
                        )
                        &&& final(self)@ == after_results(old(self)@, results.len())
                    },
                    Err(error) => {
                        &&& final(self)@ == old(self)@
                        &&& {
                            ||| error is QueryTooDeep
                            ||| error is QueryParserError
                            ||| error is TantivyError
                            ||| error is IdParsing && !index@.committed.private
                        }
                    },
                }
            },
    {
        if self.is_done {
            return Ok(None);
        }
        let results = match self.room.search_room_bookmarks(
            index,
            self.query.as_str(),
            self.num_results_per_batch,
            self.offset,
        ) {
            Ok(results) => results,
            Err(error) => return Err(error),
        };
        proof {
            law_results_are_bounded(
                index@.committed,
                search_clauses(index.parser(), self@.query, Some(self@.room_id)),
                start_of(self@.offset),
                self@.num_results_per_batch as int,
                found_views(results@),
            );
            assert(results@.len() == 0 ==> found_views(results@) =~= Seq::<Found>::empty());
        }
        Ok(self.accept(results))
    }
}

/// The current version of an event: its last replacement, or the event itself where it has none.
pub fn latest_version<T>(original: T, replacements: Vec<T>) -> (latest: T)
    ensures
        latest == current(original, replacements@),
{
    let mut replacements = replacements;
    match replacements.pop() {
        Some(last) => last,
        None => original,
    }
}

/// The current version of an event: its last replacement, or the event itself where it has none.
pub open spec fn current<T>(original: T, replacements: Seq<T>) -> T {
    if replacements.len() > 0 {
        replacements.last()
    } else {
        original
    }
}

/// The current versions of loaded events, in the same order.
pub fn latest_versions<T>(loaded: Vec<(T, Vec<T>)>) -> (events: Vec<T>)
    ensures
        events@.len() == loaded@.len(),
        forall|i: int|
            0 <= i < events@.len() ==> #[trigger] events@[i] == current(
                loaded@[i].0,
                loaded@[i].1@,
            ),
{
    let ghost all = loaded@;
    let mut events: Vec<T> = Vec::new();
    for entry in entries: loaded.into_iter()
        invariant
            entries.seq() == all,
            events@.len() == entries.index(),
            forall|i: int|
                0 <= i < events@.len() ==> #[trigger] events@[i] == current(all[i].0, all[i].1@),
    {
        events.push(latest_version(entry.0, entry.1));
    }
    events
}

} // verus!
