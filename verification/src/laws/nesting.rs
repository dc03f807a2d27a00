//! Which texts are nested too deeply to be searched for.

use vstd::prelude::*;
use vstd::utf8::encode_utf8;

use crate::nesting::{
    all_groups, ends_with_not, has_quotes, is_quote, most_open_groups, negations,
    open_groups, shallow,
};

verus! {

/// How often a byte occurs.
pub open spec fn occurrences(bytes: Seq<u8>, byte: u8) -> int {
    bytes.filter(|b: u8| b == byte).len() as int
}

/// The numbers below the length of a text.
pub open spec fn positions(bytes: Seq<u8>) -> Seq<int> {
    Seq::new(bytes.len(), |i: int| i)
}

/// Whether the white space at a position follows the word for a negation.
pub open spec fn negates(bytes: Seq<u8>, i: int) -> bool {
    &&& 3 <= i < bytes.len()
    &&& bytes[i - 3] == 0x4e
    &&& bytes[i - 2] == 0x4f
    &&& bytes[i - 1] == 0x54
    &&& bytes[i] == 0x20 || bytes[i] == 0x09 || bytes[i] == 0x0a || bytes[i] == 0x0d
}

/// How often white space follows the word for a negation.
pub open spec fn negated(bytes: Seq<u8>) -> int {
    positions(bytes).filter(|i: int| negates(bytes, i)).len() as int
}

/// Groups are counted by parentheses.
proof fn lemma_groups(bytes: Seq<u8>)
    ensures
        open_groups(bytes) == occurrences(bytes, 0x28) - occurrences(bytes, 0x29),
        all_groups(bytes) == occurrences(bytes, 0x28),
    decreases bytes.len(),
{
    reveal(Seq::filter);
    if bytes.len() > 0 {
        lemma_groups(bytes.drop_last());
    }
}

/// The groups that are open where most are, are open somewhere, and nowhere are more.
proof fn lemma_most_open(bytes: Seq<u8>) -> (most: int)
    ensures
        0 <= most <= bytes.len(),
        most_open_groups(bytes) == open_groups(bytes.take(most)),
        forall|n: int|
            0 <= n <= bytes.len() ==> #[trigger] open_groups(bytes.take(n)) <= most_open_groups(
                bytes,
            ),
    decreases bytes.len(),
{
    assert(bytes.take(bytes.len() as int) =~= bytes);
    if bytes.len() == 0 {
        assert forall|n: int| 0 <= n <= bytes.len() implies #[trigger] open_groups(bytes.take(n))
            <= most_open_groups(bytes) by {
            assert(bytes.take(n) =~= bytes);
        }
        0
    } else {
        let rest = bytes.drop_last();
        let before = lemma_most_open(rest);
        assert forall|n: int| 0 <= n <= bytes.len() implies #[trigger] open_groups(bytes.take(n))
            <= most_open_groups(bytes) by {
            if n < bytes.len() {
                assert(bytes.take(n) =~= rest.take(n));
                assert(open_groups(rest.take(n)) <= most_open_groups(rest));
            }
        }
        assert(bytes.take(before) =~= rest.take(before));
        if open_groups(bytes) > most_open_groups(rest) {
            bytes.len() as int
        } else {
            before
        }
    }
}

/// What passes two tests that agree on a list is the same.
proof fn lemma_filter_agree(list: Seq<int>, one: spec_fn(int) -> bool, other: spec_fn(int) -> bool)
    requires
        forall|i: int| 0 <= i < list.len() ==> one(#[trigger] list[i]) == other(list[i]),
    ensures
        list.filter(one) == list.filter(other),
    decreases list.len(),
{
    reveal(Seq::filter);
    if list.len() > 0 {
        let rest = list.drop_last();
        assert forall|i: int| 0 <= i < rest.len() implies one(#[trigger] rest[i]) == other(
            rest[i],
        ) by {
            assert(rest[i] == list[i]);
        }
        lemma_filter_agree(rest, one, other);
        assert(one(list[list.len() - 1]) == other(list[list.len() - 1]));
    }
}

/// Negations are counted by the white space after them.
proof fn lemma_negations(bytes: Seq<u8>)
    ensures
        negations(bytes) == negated(bytes),
    decreases bytes.len(),
{
    reveal(Seq::filter);
    if bytes.len() > 0 {
        let n = bytes.len() - 1;
        let rest = bytes.drop_last();
        let all = positions(bytes);
        lemma_negations(rest);
        assert(all.drop_last() =~= positions(rest));
        lemma_filter_agree(
            positions(rest),
            |i: int| negates(rest, i),
            |i: int| negates(bytes, i),
        );
        assert(all.last() == n);
        assert(negates(bytes, n) == ends_with_not(bytes));
    }
}

/// A text can be searched for unless it is nested too deeply. How deeply it is nested goes by how often
/// the word for a negation occurs, and by the parentheses that are open at the same time, or by all of
/// them where the text has a quotation mark, an apostrophe, a slash or a backslash.
pub proof fn law_nesting_is_counted(text: &str, is_shallow: bool)
    requires
        call_ensures(shallow, (text,), is_shallow),
    ensures
        ({
            let bytes = encode_utf8(text@);
            &&& bytes.contains(0x22) || bytes.contains(0x27) || bytes.contains(0x2f)
                || bytes.contains(0x5c) ==> (is_shallow <==> negated(bytes) + occurrences(
                bytes,
                0x28,
            ) <= 128)
            &&& !bytes.contains(0x22) && !bytes.contains(0x27) && !bytes.contains(0x2f)
                && !bytes.contains(0x5c) ==> (is_shallow <==> forall|n: int|
                0 <= n <= bytes.len() ==> negated(bytes) + occurrences(
                    #[trigger] bytes.take(n),
                    0x28,
                ) - occurrences(bytes.take(n), 0x29) <= 128)
        }),
{
    let bytes = encode_utf8(text@);
    lemma_groups(bytes);
    lemma_negations(bytes);
    let most = lemma_most_open(bytes);
    assert forall|n: int| 0 <= n <= bytes.len() implies open_groups(#[trigger] bytes.take(n))
        == occurrences(bytes.take(n), 0x28) - occurrences(bytes.take(n), 0x29) by {
        lemma_groups(bytes.take(n));
    }
    assert(has_quotes(bytes) <==> bytes.contains(0x22) || bytes.contains(0x27) || bytes.contains(
        0x2f,
    ) || bytes.contains(0x5c)) by {
        if has_quotes(bytes) {
            let i = choose|i: int| 0 <= i < bytes.len() && is_quote(#[trigger] bytes[i]);
            assert(bytes.contains(bytes[i]));
        }
        if bytes.contains(0x22) {
            let i = choose|i: int| 0 <= i < bytes.len() && bytes[i] == 0x22;
            assert(is_quote(bytes[i]));
        }
        if bytes.contains(0x27) {
            let i = choose|i: int| 0 <= i < bytes.len() && bytes[i] == 0x27;
            assert(is_quote(bytes[i]));
        }
        if bytes.contains(0x2f) {
            let i = choose|i: int| 0 <= i < bytes.len() && bytes[i] == 0x2f;
            assert(is_quote(bytes[i]));
        }
        if bytes.contains(0x5c) {
            let i = choose|i: int| 0 <= i < bytes.len() && bytes[i] == 0x5c;
            assert(is_quote(bytes[i]));
        }
    }
    assert(bytes.take(most).len() == most);
}

/// A text without the word for a negation and with up to a hundred and twenty-eight parentheses can be
/// searched for.
pub proof fn law_plain_texts_are_shallow(text: &str, is_shallow: bool)
    requires
        call_ensures(shallow, (text,), is_shallow),
        !encode_utf8(text@).contains(0x4e),
        occurrences(encode_utf8(text@), 0x28) <= 128,
    ensures
        is_shallow,
{
    let bytes = encode_utf8(text@);
    lemma_groups(bytes);
    lemma_negations(bytes);
    let most = lemma_most_open(bytes);
    lemma_groups(bytes.take(most));
    lemma_fewer(bytes, 0x28, most);
    assert(negations(bytes) == 0) by {
        lemma_no_negations(bytes);
    }
    assert(open_groups(bytes.take(most)) <= occurrences(bytes, 0x28));
}

/// A byte does not occur more often in the front of a text.
proof fn lemma_fewer(bytes: Seq<u8>, byte: u8, n: int)
    requires
        0 <= n <= bytes.len(),
    ensures
        0 <= occurrences(bytes.take(n), byte) <= occurrences(bytes, byte),
    decreases bytes.len(),
{
    reveal(Seq::filter);
    if n == bytes.len() {
        assert(bytes.take(n) =~= bytes);
    } else {
        lemma_fewer(bytes.drop_last(), byte, n);
        assert(bytes.drop_last().take(n) =~= bytes.take(n));
    }
}

/// Without its first letter the word for a negation does not occur.
proof fn lemma_no_negations(bytes: Seq<u8>)
    requires
        !bytes.contains(0x4e),
    ensures
        negations(bytes) == 0,
    decreases bytes.len(),
{
    if bytes.len() > 0 {
        let rest = bytes.drop_last();
        assert(!rest.contains(0x4e)) by {
            if rest.contains(0x4e) {
                let i = choose|i: int| 0 <= i < rest.len() && rest[i] == 0x4e;
                assert(bytes[i] == 0x4e);
            }
        }
        lemma_no_negations(rest);
        if ends_with_not(bytes) {
            assert(bytes.contains(bytes[bytes.len() - 4]));
        }
    }
}

} // verus!
