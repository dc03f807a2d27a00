//! Facts about the documents of bookmarks and about what lookups find.

use tantivy::Searcher;
use vstd::multiset::Multiset;
use vstd::prelude::*;
use vstd::seq_lib::group_to_multiset_ensures;

use crate::bookmark::{valid_pointer, Content, Found, Pointer};
use crate::engine::{
    engine_ranks, first_value, has_term, have_scores, is_about, is_stored, meets, meets_all, page,
    ranks, searcher_docs, stored_part, Clause, Doc, FieldValue,
};
use crate::model::{
    about_documents, all_bookmarks, answers, bookmark_doc, doc_meets, doc_meets_all, doc_pointer,
    field_text, finds, hit, is_bookmark, key_text, matched, matching, pointers, pointers_of,
    reads_page, renewals, short, snapshot_of, some_doc_of, untouched, Committed, Key,
};
use crate::schema::bookmark_fields;

verus! {

/// A filter that keeps all values of a field keeps the first one.
pub proof fn lemma_first_value_of_filter(doc: Doc, keep: spec_fn((u32, FieldValue)) -> bool, field: u32)
    requires
        forall|value: (u32, FieldValue)| value.0 == field ==> #[trigger] keep(value),
    ensures
        first_value(doc.filter(keep), field) == first_value(doc, field),
    decreases doc.len(),
{
    reveal(Seq::filter);
    if doc.len() > 0 {
        lemma_first_value_of_filter(doc.drop_last(), keep, field);
        let rest = doc.drop_last().filter(keep);
        if keep(doc.last()) {
            assert(doc.filter(keep) == rest.push(doc.last()));
            assert(rest.push(doc.last()).drop_last() =~= rest);
        } else {
            assert(doc.filter(keep) == rest);
        }
    }
}

/// What is stored of a document holds the same ids as the document.
pub proof fn lemma_stored_pointer(doc: Doc)
    ensures
        doc_pointer(stored_part(bookmark_fields(), doc)) == doc_pointer(doc),
{
    let keep = |value: (u32, FieldValue)| is_stored(bookmark_fields(), value.0);
    assert(stored_part(bookmark_fields(), doc) == doc.filter(keep));
    lemma_first_value_of_filter(doc, keep, 0);
    lemma_first_value_of_filter(doc, keep, 1);
    lemma_first_value_of_filter(doc, keep, 2);
    lemma_first_value_of_filter(doc, keep, 3);
}

/// The document of a bookmark holds the ids of the bookmark, and is found by exactly those that are
/// short enough to be looked up.
pub proof fn lemma_bookmark_doc(pointer: Pointer, content: Content)
    ensures
        field_text(bookmark_doc(pointer, content), 0) == Some(pointer.event_id),
        field_text(bookmark_doc(pointer, content), 1) == Some(pointer.original_event_id),
        field_text(bookmark_doc(pointer, content), 2) == Some(pointer.target_event_id),
        field_text(bookmark_doc(pointer, content), 3) == Some(pointer.target_room_id),
        valid_pointer(pointer) ==> doc_pointer(bookmark_doc(pointer, content)) == Some(pointer),
        forall|field: u32, text: Seq<char>|
            field < 4 ==> (#[trigger] has_term(bookmark_doc(pointer, content), field, text) <==> {
                &&& key_text(pointer, field) == text
                &&& short(text)
            }),
{
    let doc = bookmark_doc(pointer, content);
    reveal_with_fuel(first_value, 8);
    let d6 = doc.drop_last();
    let d5 = d6.drop_last();
    let d4 = d5.drop_last();
    let d3 = d4.drop_last();
    let d2 = d3.drop_last();
    let d1 = d2.drop_last();
    assert(first_value(d1, 0) == Some(FieldValue::Text(pointer.event_id)));
    assert(first_value(d2, 1) == Some(FieldValue::Text(pointer.original_event_id)));
    assert(first_value(d3, 2) == Some(FieldValue::Text(pointer.target_event_id)));
    assert(first_value(d4, 3) == Some(FieldValue::Text(pointer.target_room_id)));
    assert forall|field: u32, text: Seq<char>| field < 4 implies (#[trigger] has_term(
        doc,
        field,
        text,
    ) <==> {
        &&& key_text(pointer, field) == text
        &&& short(text)
    }) by {
        assert(doc[field as int] == (field, FieldValue::Text(key_text(pointer, field))));
    }
}

/// What is on a page of a list is in the list.
pub proof fn lemma_on_page<T>(list: Seq<T>, offset: int, limit: int, i: int)
    requires
        0 <= offset,
        0 <= limit,
        0 <= i < page(list, offset, limit).len(),
    ensures
        offset + i < list.len(),
        page(list, offset, limit)[i] == list[offset + i],
{
}

/// A full ranking by one term lists the documents with the term.
pub proof fn lemma_ranking_of_term(
    searcher: Searcher,
    field: u32,
    text: Seq<char>,
    ranking: Seq<(u32, int)>,
)
    requires
        ranks(searcher, seq![Clause::Term(field, text)], ranking),
    ensures
        ranking.map_values(|entry: (u32, int)| searcher_docs(searcher)[entry.1]).to_multiset()
            == matching(searcher_docs(searcher).to_multiset(), field, text),
        ranking.len() == matching(searcher_docs(searcher).to_multiset(), field, text).len(),
{
    let clauses = seq![Clause::Term(field, text)];
    let pred = |doc: Doc| has_term(doc, field, text);
    assert forall|i: int| 0 <= i < searcher_docs(searcher).len() implies #[trigger] meets_all(
        searcher,
        clauses,
        i,
    ) == pred(searcher_docs(searcher)[i]) by {
        assert(meets(searcher, clauses[0], i) == has_term(searcher_docs(searcher)[i], field, text));
    }
    lemma_ranking_lists(searcher, clauses, pred, ranking);
}

/// A full ranking by conditions that depend on documents alone lists the documents that meet them.
pub proof fn lemma_ranking_of_matched(
    committed: Committed,
    searcher: Searcher,
    clauses: Seq<Clause>,
    ranking: Seq<(u32, int)>,
)
    requires
        committed.private,
        all_bookmarks(committed.docs),
        snapshot_of(committed, searcher),
        about_documents(clauses),
        ranks(searcher, clauses, ranking),
    ensures
        ranking.map_values(|entry: (u32, int)| searcher_docs(searcher)[entry.1]).to_multiset()
            == matched(committed.docs, clauses),
        ranking.len() == matched(committed.docs, clauses).len(),
{
    broadcast use group_to_multiset_ensures;

    let docs = searcher_docs(searcher);
    let pred = |doc: Doc| doc_meets_all(clauses, doc);
    assert forall|i: int| 0 <= i < docs.len() implies #[trigger] meets_all(searcher, clauses, i) == pred(
        docs[i],
    ) by {
        assert(docs.contains(docs[i]));
        assert(committed.docs.contains(docs[i]));
        assert(is_bookmark(docs[i]));
        assert forall|k: int| 0 <= k < clauses.len() implies meets(searcher, #[trigger] clauses[k], i)
            == doc_meets(clauses[k], docs[i]) by {
            if let Clause::Text(parser, text) = clauses[k] {
                assert(is_about(text, docs[i]));
            }
        }
    }
    lemma_ranking_lists(searcher, clauses, pred, ranking);
}

/// The first page of a ranking by one term is what a lookup of the term finds.
pub proof fn lemma_lookup_finds(
    searcher: Searcher,
    field: u32,
    text: Seq<char>,
    ranking: Seq<(u32, int)>,
    limit: int,
    results: Seq<Found>,
)
    requires
        0 <= limit,
        ranks(searcher, seq![Clause::Term(field, text)], ranking),
        reads_page(searcher, ranking, 0, limit, results),
    ensures
        finds(searcher_docs(searcher).to_multiset(), field, text, limit, results),
{
    broadcast use group_to_multiset_ensures;

    let clauses = seq![Clause::Term(field, text)];
    let docs = searcher_docs(searcher);
    let found = matching(docs.to_multiset(), field, text);
    lemma_ranking_of_term(searcher, field, text, ranking);
    let hits = page(ranking, 0, limit);
    assert forall|i: int| 0 <= i < results.len() implies some_doc_of(
        found,
        (#[trigger] results[i]).pointer,
    ) by {
        let entry = ranking[i];
        assert(hits[i] == entry);
        assert(meets(searcher, clauses[0], entry.1));
        assert(docs.contains(docs[entry.1]));
        assert(found.contains(docs[entry.1]));
    }
    if found.len() <= limit {
        assert forall|doc: Doc| #[trigger] found.contains(doc) implies exists|i: int|
            0 <= i < results.len() && doc_pointer(doc) == Some((#[trigger] results[i]).pointer) by {
            assert(docs.contains(doc));
            let position = choose|position: int|
                0 <= position < docs.len() && docs[position] == doc;
            assert(meets(searcher, clauses[0], position));
            assert(meets_all(searcher, clauses, position));
            let k = choose|k: int| 0 <= k < ranking.len() && (#[trigger] ranking[k]).1 == position;
            assert(hits[k] == ranking[k]);
            assert(results[k].pointer == results[k].pointer);
        }
        let found_docs = ranking.map_values(|entry: (u32, int)| docs[entry.1]);
        assert(hits =~= ranking);
        assert(pointers_of(found_docs, results));
    }
}

/// A full ranking by conditions that a predicate on documents stands for lists the documents for which
/// it holds.
proof fn lemma_ranking_lists(
    searcher: Searcher,
    clauses: Seq<Clause>,
    pred: spec_fn(Doc) -> bool,
    ranking: Seq<(u32, int)>,
)
    requires
        ranks(searcher, clauses, ranking),
        have_scores(clauses),
        forall|i: int|
            0 <= i < searcher_docs(searcher).len() ==> #[trigger] meets_all(searcher, clauses, i)
                == pred(searcher_docs(searcher)[i]),
    ensures
        ranking.map_values(|entry: (u32, int)| searcher_docs(searcher)[entry.1]).to_multiset()
            == searcher_docs(searcher).to_multiset().filter(pred),
        ranking.len() == searcher_docs(searcher).to_multiset().filter(pred).len(),
{
    broadcast use group_to_multiset_ensures;

    let docs = searcher_docs(searcher);
    let listed = ranking.map_values(|entry: (u32, int)| entry.1);
    assert(listed.no_duplicates());
    assert forall|i: int| 0 <= i < docs.len() && pred(docs[i]) implies listed.contains(i) by {
        assert(meets_all(searcher, clauses, i));
        let k = choose|k: int| 0 <= k < ranking.len() && (#[trigger] ranking[k]).1 == i;
        assert(listed[k] == i);
    }
    assert forall|k: int| 0 <= k < listed.len() implies 0 <= #[trigger] listed[k] < docs.len()
        && pred(docs[listed[k]]) by {
        assert(ranking[k].1 == listed[k]);
        assert(meets_all(searcher, clauses, listed[k]));
    }
    lemma_positions_list(docs, pred, listed);
    assert(ranking.map_values(|entry: (u32, int)| docs[entry.1]) =~= listed.map_values(
        |i: int| docs[i],
    ));
}

/// The elements at all positions where a predicate holds are those for which it does.
proof fn lemma_positions_list(docs: Seq<Doc>, pred: spec_fn(Doc) -> bool, listed: Seq<int>)
    requires
        listed.no_duplicates(),
        forall|i: int| 0 <= i < docs.len() && pred(docs[i]) ==> #[trigger] listed.contains(i),
        forall|k: int|
            0 <= k < listed.len() ==> 0 <= #[trigger] listed[k] < docs.len() && pred(
                docs[listed[k]],
            ),
    ensures
        listed.map_values(|i: int| docs[i]).to_multiset() == docs.to_multiset().filter(pred),
    decreases docs.len(),
{
    broadcast use group_to_multiset_ensures;

    let all = listed.map_values(|i: int| docs[i]);
    if docs.len() == 0 {
        assert(listed.len() == 0) by {
            if listed.len() > 0 {
                assert(0 <= listed[0] < docs.len());
            }
        }
        assert(all =~= Seq::empty());
        assert(docs.to_multiset() =~= Multiset::empty());
        assert(docs.to_multiset().filter(pred) =~= Multiset::empty());
    } else {
        let rest = docs.drop_last();
        let last = docs.len() - 1;
        assert(docs =~= rest.push(docs.last()));
        if pred(docs.last()) {
            assert(docs[last] == docs.last());
            assert(listed.contains(last));
            let k = choose|k: int| 0 <= k < listed.len() && listed[k] == last;
            let fewer = listed.remove(k);
            assert forall|i: int| 0 <= i < rest.len() && pred(rest[i]) implies #[trigger]
                fewer.contains(i) by {
                assert(pred(docs[i]));
                assert(listed.contains(i));
                let j = choose|j: int| 0 <= j < listed.len() && listed[j] == i;
                if j < k {
                    assert(fewer[j] == i);
                } else {
                    assert(fewer[j - 1] == i);
                }
            }
            assert forall|j: int| 0 <= j < fewer.len() implies 0 <= #[trigger] fewer[j] < rest.len()
                && pred(rest[fewer[j]]) by {
                let other = if j < k {
                    j
                } else {
                    j + 1
                };
                assert(fewer[j] == listed[other]);
                assert(listed[other] != listed[k]);
            }
            assert forall|i: int, j: int| 0 <= i < j < fewer.len() implies fewer[i] != fewer[j] by {
                let first = if i < k {
                    i
                } else {
                    i + 1
                };
                let second = if j < k {
                    j
                } else {
                    j + 1
                };
                assert(listed[first] != listed[second]);
            }
            assert(fewer.no_duplicates());
            lemma_positions_list(rest, pred, fewer);
            assert(fewer.map_values(|i: int| rest[i]) =~= all.remove(k)) by {
                let mapped = fewer.map_values(|i: int| rest[i]);
                assert forall|j: int| 0 <= j < mapped.len() implies mapped[j] == all.remove(k)[j] by {
                    assert(0 <= fewer[j] < rest.len());
                }
            }
            assert(all =~= all.remove(k).insert(k, docs.last()));
            assert(all.to_multiset() == all.remove(k).to_multiset().insert(docs.last()));
            assert(docs.to_multiset().filter(pred) =~= rest.to_multiset().filter(pred).insert(
                docs.last(),
            ));
        } else {
            assert forall|j: int| 0 <= j < listed.len() implies 0 <= #[trigger] listed[j]
                < rest.len() && pred(rest[listed[j]]) by {
                assert(docs[last] == docs.last());
            }
            assert forall|i: int| 0 <= i < rest.len() && pred(rest[i]) implies #[trigger]
                listed.contains(i) by {
                assert(pred(docs[i]));
            }
            lemma_positions_list(rest, pred, listed);
            assert(listed.map_values(|i: int| rest[i]) =~= all) by {
                let mapped = listed.map_values(|i: int| rest[i]);
                assert forall|j: int| 0 <= j < mapped.len() implies mapped[j] == all[j] by {
                    assert(0 <= listed[j] < rest.len());
                }
            }
            assert(docs.to_multiset().filter(pred) =~= rest.to_multiset().filter(pred));
        }
    }
}

/// Whatever answers a query that requires a term is a committed bookmark with the term.
pub proof fn lemma_answers_term(
    committed: Committed,
    clauses: Seq<Clause>,
    offset: int,
    limit: int,
    results: Seq<Found>,
    field: u32,
    text: Seq<char>,
)
    requires
        committed.private,
        0 <= offset,
        0 <= limit,
        answers(committed, clauses, offset, limit, results),
        clauses.contains(Clause::Term(field, text)),
    ensures
        forall|i: int|
            0 <= i < results.len() ==> some_doc_of(
                matching(committed.docs, field, text),
                (#[trigger] results[i]).pointer,
            ),
{
    broadcast use group_to_multiset_ensures;

    let (searcher, ranking) = choose|searcher: Searcher, ranking: Seq<(u32, int)>|
        {
            &&& snapshot_of(committed, searcher)
            &&& #[trigger] ranks(searcher, clauses, ranking)
            &&& engine_ranks(searcher, clauses, ranking)
            &&& reads_page(searcher, ranking, offset, limit, results)
        };
    let docs = searcher_docs(searcher);
    assert forall|i: int| 0 <= i < results.len() implies some_doc_of(
        matching(committed.docs, field, text),
        (#[trigger] results[i]).pointer,
    ) by {
        lemma_on_page(ranking, offset, limit, i);
        let position = ranking[offset + i].1;
        let k = choose|k: int| 0 <= k < clauses.len() && clauses[k] == Clause::Term(field, text);
        assert(meets(searcher, clauses[k], position));
        assert(docs.contains(docs[position]));
        assert(matching(committed.docs, field, text).contains(docs[position]));
    }
}

/// The bookmarks that an edit by a key renews have that key.
pub proof fn lemma_renewals_hit(
    pending: Seq<Pointer>,
    removed: Set<Key>,
    key: Key,
    results: Seq<Found>,
    i: int,
)
    requires
        0 <= i < renewals(pending, removed, key, results).len(),
    ensures
        hit(renewals(pending, removed, key, results)[i], key),
{
    let live = |pointer: Pointer| untouched(removed, pointer) && hit(pointer, key);
    let hits = |pointer: Pointer| hit(pointer, key);
    let first = pointers(results).filter(live);
    if i < first.len() {
        pointers(results).lemma_filter_pred(live, i);
    } else {
        pending.lemma_filter_pred(hits, i - first.len());
    }
}

} // verus!
