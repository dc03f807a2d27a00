//! Facts about lists and their elements.

use vstd::multiset::Multiset;
use vstd::prelude::*;
use vstd::seq_lib::group_to_multiset_ensures;

verus! {

/// The elements of a filtered list are the filtered elements of the list.
pub proof fn lemma_filter_of_list<T>(list: Seq<T>, pred: spec_fn(T) -> bool)
    ensures
        list.filter(pred).to_multiset() == list.to_multiset().filter(pred),
    decreases list.len(),
{
    broadcast use group_to_multiset_ensures;

    reveal(Seq::filter);
    if list.len() == 0 {
        assert(list.to_multiset() =~= Multiset::empty());
        assert(list.to_multiset().filter(pred) =~= Multiset::empty());
        assert(list.filter(pred) =~= Seq::empty());
    } else {
        let rest = list.drop_last();
        lemma_filter_of_list(rest, pred);
        assert(list =~= rest.push(list.last()));
        if pred(list.last()) {
            assert(list.to_multiset().filter(pred) =~= rest.to_multiset().filter(pred).insert(
                list.last(),
            ));
        } else {
            assert(list.to_multiset().filter(pred) =~= rest.to_multiset().filter(pred));
        }
    }
}

/// To select from a list and then map is to map and then select.
pub proof fn lemma_filter_then_map<A, B>(
    list: Seq<A>,
    before: spec_fn(A) -> bool,
    after: spec_fn(B) -> bool,
    f: spec_fn(A) -> B,
)
    requires
        forall|i: int| 0 <= i < list.len() ==> before(#[trigger] list[i]) == after(f(list[i])),
    ensures
        list.filter(before).map_values(f) == list.map_values(f).filter(after),
    decreases list.len(),
{
    reveal(Seq::filter);
    if list.len() > 0 {
        let rest = list.drop_last();
        lemma_filter_then_map(rest, before, after, f);
        let mapped = list.map_values(f);
        assert(mapped.drop_last() =~= rest.map_values(f));
        assert(list[list.len() - 1] == list.last());
        assert(mapped.last() == f(list.last()));
        if before(list.last()) {
            assert(rest.filter(before).push(list.last()).map_values(f) =~= rest.filter(
                before,
            ).map_values(f).push(f(list.last())));
        }
    } else {
        assert(list.filter(before).map_values(f) =~= list.map_values(f).filter(after));
    }
}

/// Lists with the same elements have the same elements once they are mapped.
pub proof fn lemma_map_of_list<A, B>(one: Seq<A>, other: Seq<A>, f: spec_fn(A) -> B)
    requires
        one.to_multiset() == other.to_multiset(),
    ensures
        one.map_values(f).to_multiset() == other.map_values(f).to_multiset(),
    decreases one.len(),
{
    broadcast use group_to_multiset_ensures;

    assert(one.to_multiset().len() == one.len());
    assert(other.to_multiset().len() == other.len());
    if one.len() == 0 {
        assert(one.map_values(f) =~= other.map_values(f));
    } else {
        let last = one.last();
        let rest = one.drop_last();
        assert(one =~= rest.push(last));
        assert(one.to_multiset().contains(last));
        assert(other.contains(last));
        let k = choose|k: int| 0 <= k < other.len() && other[k] == last;
        let fewer = other.remove(k);
        assert(other =~= fewer.insert(k, last));
        assert(rest.to_multiset() =~= fewer.to_multiset()) by {
            assert(other.to_multiset() == fewer.to_multiset().insert(last));
            assert forall|a: A| rest.to_multiset().count(a) == fewer.to_multiset().count(a) by {
                assert(one.to_multiset().count(a) == other.to_multiset().count(a));
            }
        }
        lemma_map_of_list(rest, fewer, f);
        assert(one.map_values(f) =~= rest.map_values(f).push(f(last)));
        assert(other.map_values(f) =~= fewer.map_values(f).insert(k, f(last)));
    }
}

} // verus!
