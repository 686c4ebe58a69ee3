//! What a query gives: the last value of each of its keys.
use vstd::prelude::*;

use crate::order::{lemma_precedes_irreflexive, precedes};
use crate::params::{gathered, lemma_listing_of_gathered, listing, pair_texts, value_of};

verus! {

/// Whether `value` is the last value that the pairs have for `key`.
pub open spec fn gives(
    pairs: Seq<(Seq<char>, Seq<char>)>,
    key: Seq<char>,
    value: Seq<char>,
) -> bool {
    exists|i: int|
        0 <= i < pairs.len() && (#[trigger] pairs[i]) == (key, value) && forall|j: int|
            i < j < pairs.len() ==> (#[trigger] pairs[j]).0 != key
}

/// Whether no pair has `key`.
pub open spec fn leaves_out(pairs: Seq<(Seq<char>, Seq<char>)>, key: Seq<char>) -> bool {
    forall|i: int| 0 <= i < pairs.len() ==> (#[trigger] pairs[i]).0 != key
}

/// Whether `value` is the last value for `key`, or `default` where there is none.
pub open spec fn gives_or(
    pairs: Seq<(Seq<char>, Seq<char>)>,
    key: Seq<char>,
    default: Seq<char>,
    value: Seq<char>,
) -> bool {
    gives(pairs, key, value) || (leaves_out(pairs, key) && value == default)
}

/// Pairs of strings hold the texts of both.
pub proof fn law_pair_texts(pairs: Seq<(String, String)>, i: int)
    requires
        0 <= i < pairs.len(),
    ensures
        pair_texts(pairs).len() == pairs.len(),
        pair_texts(pairs)[i] == (pairs[i].0@, pairs[i].1@),
{
}

/// Of several pairs with one key the last counts, and a key without a pair has no value.
pub proof fn law_gathered(pairs: Seq<(Seq<char>, Seq<char>)>, key: Seq<char>, value: Seq<char>)
    ensures
        value_of(gathered(pairs), key) == Some(value) <==> gives(pairs, key, value),
        value_of(gathered(pairs), key) is None <==> leaves_out(pairs, key),
        gathered(pairs).contains_key(key) <==> !leaves_out(pairs, key),
        gathered(pairs).contains_key(key) ==> gives(pairs, key, gathered(pairs)[key]),
    decreases pairs.len(),
{
    if pairs.len() > 0 {
        let front = pairs.drop_last();
        let last = pairs[pairs.len() - 1];
        law_gathered(front, key, value);
        assert(forall|i: int| 0 <= i < front.len() ==> front[i] == pairs[i]);
        if last.0 == key {
            assert(gives(pairs, key, last.1));
            if gives(pairs, key, value) {
                let i = choose|i: int|
                    0 <= i < pairs.len() && (#[trigger] pairs[i]) == (key, value) && forall|j: int|
                        i < j < pairs.len() ==> (#[trigger] pairs[j]).0 != key;
                assert(pairs[pairs.len() - 1].0 == key);
            }
        } else {
            lemma_gives_front(pairs, key, value);
            if gathered(pairs).contains_key(key) {
                lemma_gives_front(pairs, key, gathered(pairs)[key]);
            }
            if leaves_out(front, key) {
                assert(leaves_out(pairs, key));
            }
            if leaves_out(pairs, key) {
                assert forall|i: int| 0 <= i < front.len() implies (#[trigger] front[i]).0
                    != key by {
                    assert(pairs[i].0 != key);
                }
            }
        }
    }
}

/// A last pair with another key changes nothing.
proof fn lemma_gives_front(
    pairs: Seq<(Seq<char>, Seq<char>)>,
    key: Seq<char>,
    value: Seq<char>,
)
    requires
        pairs.len() > 0,
        pairs.last().0 != key,
    ensures
        gives(pairs, key, value) <==> gives(pairs.drop_last(), key, value),
{
    let front = pairs.drop_last();
    if gives(pairs, key, value) {
        let i = choose|i: int|
            0 <= i < pairs.len() && (#[trigger] pairs[i]) == (key, value) && forall|j: int|
                i < j < pairs.len() ==> (#[trigger] pairs[j]).0 != key;
        assert(i < front.len());
        assert(front[i] == (key, value));
        assert forall|j: int| i < j < front.len() implies (#[trigger] front[j]).0 != key by {
            assert(pairs[j].0 != key);
        }
    }
    if gives(front, key, value) {
        let i = choose|i: int|
            0 <= i < front.len() && (#[trigger] front[i]) == (key, value) && forall|j: int|
                i < j < front.len() ==> (#[trigger] front[j]).0 != key;
        assert(pairs[i] == (key, value));
        assert forall|j: int| i < j < pairs.len() implies (#[trigger] pairs[j]).0 != key by {
            if j < front.len() {
                assert(front[j].0 != key);
            }
        }
    }
}

/// A listing holds each key with its last value and nothing else, each key before all later ones.
pub proof fn law_listing(
    pairs: Seq<(Seq<char>, Seq<char>)>,
    key: Seq<char>,
    value: Seq<char>,
    i: int,
    j: int,
)
    ensures
        listing(gathered(pairs)).contains((key, value)) <==> gives(pairs, key, value),
        0 <= i < j < listing(gathered(pairs)).len() ==> precedes(
            listing(gathered(pairs))[i].0,
            listing(gathered(pairs))[j].0,
        ),
{
    let list = listing(gathered(pairs));
    lemma_listing_of_gathered(pairs);
    law_gathered(pairs, key, value);
    law_gathered(list, key, value);
    if list.contains((key, value)) {
        let k = choose|k: int| 0 <= k < list.len() && list[k] == (key, value);
        assert forall|m: int| k < m < list.len() implies (#[trigger] list[m]).0 != key by {
            assert(precedes(list[k].0, list[m].0));
            lemma_precedes_irreflexive(key);
        }
        assert(gives(list, key, value));
    }
}

} // verus!
