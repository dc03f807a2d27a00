//! How deeply queries are nested.
//!
//! The engine reads a query by recursion: one level for each group that is open, and one for each
//! negation. How deep that may go is limited by the stack.

use vstd::prelude::*;
use vstd::utf8::encode_utf8;

verus! {

/// The number of levels, at most, of a query that is read. The engine takes some ten kilobytes of
/// stack for each.
pub const MAX_NESTING: usize = 128;

/// By how much a byte changes the number of open groups.
pub open spec fn opening(byte: u8) -> int {
    if byte == 0x28 {
        1
    } else if byte == 0x29 {
        -1
    } else {
        0
    }
}

/// The number of groups that are open after a text.
pub open spec fn open_groups(bytes: Seq<u8>) -> int
    decreases bytes.len(),
{
    if bytes.len() == 0 {
        0
    } else {
        open_groups(bytes.drop_last()) + opening(bytes.last())
    }
}

/// The number of groups that are open where most are.
pub open spec fn most_open_groups(bytes: Seq<u8>) -> int
    decreases bytes.len(),
{
    if bytes.len() == 0 {
        0
    } else {
        let before = most_open_groups(bytes.drop_last());
        if open_groups(bytes) > before {
            open_groups(bytes)
        } else {
            before
        }
    }
}

/// The number of opening parentheses.
pub open spec fn all_groups(bytes: Seq<u8>) -> int
    decreases bytes.len(),
{
    if bytes.len() == 0 {
        0
    } else if bytes.last() == 0x28 {
        all_groups(bytes.drop_last()) + 1
    } else {
        all_groups(bytes.drop_last())
    }
}

/// Whether a byte is white space.
pub open spec fn is_space(byte: u8) -> bool {
    byte == 0x20 || byte == 0x09 || byte == 0x0a || byte == 0x0d
}

/// Whether a text ends with the word for a negation and white space.
pub open spec fn ends_with_not(bytes: Seq<u8>) -> bool {
    &&& bytes.len() >= 4
    &&& bytes[bytes.len() - 4] == 0x4e
    &&& bytes[bytes.len() - 3] == 0x4f
    &&& bytes[bytes.len() - 2] == 0x54
    &&& is_space(bytes[bytes.len() - 1])
}

/// How often the word for a negation occurs, with white space after it.
pub open spec fn negations(bytes: Seq<u8>) -> int
    decreases bytes.len(),
{
    if bytes.len() == 0 {
        0
    } else if ends_with_not(bytes) {
        negations(bytes.drop_last()) + 1
    } else {
        negations(bytes.drop_last())
    }
}

/// Whether a byte is one with which a parenthesis may lose its meaning: a quotation mark, an
/// apostrophe, a slash or a backslash.
pub open spec fn is_quote(byte: u8) -> bool {
    byte == 0x22 || byte == 0x27 || byte == 0x2f || byte == 0x5c
}

/// Whether a parenthesis of a text may have no meaning.
pub open spec fn has_quotes(bytes: Seq<u8>) -> bool {
    exists|i: int| 0 <= i < bytes.len() && is_quote(#[trigger] bytes[i])
}

/// A bound on the number of levels of a query. Where every closing parenthesis closes a group it goes
/// by the groups that are open at the same time, and otherwise by all of them.
pub open spec fn nesting(text: Seq<char>) -> int {
    let bytes = encode_utf8(text);
    negations(bytes) + if has_quotes(bytes) {
        all_groups(bytes)
    } else {
        most_open_groups(bytes)
    }
}

/// Whether a query is not nested more deeply than can be read.
pub open spec fn is_shallow(text: Seq<char>) -> bool {
    nesting(text) <= MAX_NESTING
}

/// Whether a query is not nested more deeply than can be read.
pub fn shallow(text: &str) -> (shallow: bool)
    ensures
        shallow == is_shallow(text@),
{
    let bytes = text.as_bytes();
    let ghost all = bytes@;
    let mut open: i128 = 0;
    let mut most: i128 = 0;
    let mut groups: i128 = 0;
    let mut nots: i128 = 0;
    let mut quotes = false;
    let mut i: usize = 0;
    assert(all.take(0) =~= Seq::empty());
    while i < bytes.len()
        invariant
            all == bytes@,
            i <= all.len(),
            open == open_groups(all.take(i as int)),
            most == most_open_groups(all.take(i as int)),
            groups == all_groups(all.take(i as int)),
            nots == negations(all.take(i as int)),
            quotes == has_quotes(all.take(i as int)),
            -i <= open <= i,
            0 <= most <= i,
            0 <= groups <= i,
            0 <= nots <= i,
        decreases all.len() - i,
    {
        let byte = bytes[i];
        let ghost less = all.take(i as int);
        let ghost more = all.take(i + 1);
        proof {
            assert(more.drop_last() =~= less);
            assert(more.last() == byte);
            assert(forall|k: int| 0 <= k < less.len() ==> less[k] == #[trigger] more[k]);
            assert(has_quotes(more) == (has_quotes(less) || is_quote(byte))) by {
                if has_quotes(less) {
                    let k = choose|k: int| 0 <= k < less.len() && is_quote(#[trigger] less[k]);
                    assert(is_quote(more[k]));
                }
                if is_quote(byte) {
                    assert(is_quote(more[i as int]));
                }
                if has_quotes(more) {
                    let k = choose|k: int| 0 <= k < more.len() && is_quote(#[trigger] more[k]);
                    if k < i {
                        assert(is_quote(less[k]));
                    }
                }
            }
        }
        if byte == 0x28 {
            open += 1;
            groups += 1;
        } else if byte == 0x29 {
            open -= 1;
        }
        if open > most {
            most = open;
        }
        if (byte == 0x20 || byte == 0x09 || byte == 0x0a || byte == 0x0d) && i >= 3 && bytes[i - 1]
            == 0x54 && bytes[i - 2] == 0x4f && bytes[i - 3] == 0x4e {
            nots += 1;
        }
        if byte == 0x22 || byte == 0x27 || byte == 0x2f || byte == 0x5c {
            quotes = true;
        }
        i += 1;
    }
    assert(all.take(i as int) =~= all);
    let levels: i128 = if quotes {
        nots + groups
    } else {
        nots + most
    };
    levels <= MAX_NESTING as i128
}

} // verus!
