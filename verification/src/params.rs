//! The parameters of a link: one value for each key, listed in the order of the keys.
use vstd::prelude::*;

use crate::order::{precedes, text_precedes};
use crate::order::{lemma_precedes_irreflexive, lemma_precedes_total, lemma_precedes_transitive};
use crate::text::same_text;

verus! {

/// The texts in a list of pairs of strings.
pub open spec fn pair_texts(pairs: Seq<(String, String)>) -> Seq<(Seq<char>, Seq<char>)> {
    Seq::new(pairs.len(), |i: int| (pairs[i].0@, pairs[i].1@))
}

/// What a list of pairs assigns to each key: the value of the last pair with that key.
pub open spec fn gathered(pairs: Seq<(Seq<char>, Seq<char>)>) -> Map<Seq<char>, Seq<char>>
    decreases pairs.len(),
{
    if pairs.len() == 0 {
        Map::empty()
    } else {
        gathered(pairs.drop_last()).insert(pairs.last().0, pairs.last().1)
    }
}

/// Whether each pair's key comes before the keys of all later pairs.
pub open spec fn sorted(pairs: Seq<(Seq<char>, Seq<char>)>) -> bool {
    forall|i: int, j: int|
        0 <= i < j < pairs.len() ==> precedes(#[trigger] pairs[i].0, #[trigger] pairs[j].0)
}

/// The pairs of `m` in the order of their keys.
pub open spec fn listing(m: Map<Seq<char>, Seq<char>>) -> Seq<(Seq<char>, Seq<char>)> {
    choose|pairs: Seq<(Seq<char>, Seq<char>)>| sorted(pairs) && gathered(pairs) == m
}

/// The value of `key`, where it has one.
pub open spec fn value_of(m: Map<Seq<char>, Seq<char>>, key: Seq<char>) -> Option<Seq<char>> {
    if m.contains_key(key) {
        Some(m[key])
    } else {
        None
    }
}

/// A key has a value exactly where a pair has that key.
proof fn lemma_gathered_keys(pairs: Seq<(Seq<char>, Seq<char>)>, key: Seq<char>)
    ensures
        gathered(pairs).contains_key(key) <==> exists|i: int|
            0 <= i < pairs.len() && (#[trigger] pairs[i]).0 == key,
    decreases pairs.len(),
{
    if pairs.len() > 0 {
        let front = pairs.drop_last();
        lemma_gathered_keys(front, key);
        if gathered(pairs).contains_key(key) {
            if pairs.last().0 == key {
                assert(pairs[pairs.len() - 1].0 == key);
            } else {
                let i = choose|i: int| 0 <= i < front.len() && (#[trigger] front[i]).0 == key;
                assert(pairs[i].0 == key);
            }
        }
        if exists|i: int| 0 <= i < pairs.len() && (#[trigger] pairs[i]).0 == key {
            let i = choose|i: int| 0 <= i < pairs.len() && (#[trigger] pairs[i]).0 == key;
            if i < pairs.len() - 1 {
                assert(front[i].0 == key);
            }
        }
    }
}

/// In a sorted list each pair gives its key's value.
proof fn lemma_gathered_value(pairs: Seq<(Seq<char>, Seq<char>)>, i: int)
    requires
        sorted(pairs),
        0 <= i < pairs.len(),
    ensures
        gathered(pairs).contains_key(pairs[i].0),
        gathered(pairs)[pairs[i].0] == pairs[i].1,
    decreases pairs.len(),
{
    if i < pairs.len() - 1 {
        let front = pairs.drop_last();
        assert(forall|k: int| 0 <= k < front.len() ==> front[k] == pairs[k]);
        lemma_gathered_value(front, i);
        assert(precedes(pairs[i].0, pairs[pairs.len() - 1].0));
        lemma_precedes_irreflexive(pairs[i].0);
    }
}

/// There is only one sorted list with given values.
pub proof fn lemma_listing_unique(
    a: Seq<(Seq<char>, Seq<char>)>,
    b: Seq<(Seq<char>, Seq<char>)>,
)
    requires
        sorted(a),
        sorted(b),
        gathered(a) == gathered(b),
    ensures
        a == b,
    decreases a.len(),
{
    if a.len() == 0 {
        if b.len() > 0 {
            lemma_gathered_value(b, 0);
        }
        assert(a =~= b);
    } else if b.len() == 0 {
        lemma_gathered_value(a, 0);
    } else {
        let m = a.len() - 1;
        let n = b.len() - 1;
        lemma_gathered_value(a, m);
        lemma_gathered_value(b, n);
        lemma_gathered_keys(b, a[m].0);
        lemma_gathered_keys(a, b[n].0);
        let j = choose|j: int| 0 <= j < b.len() && (#[trigger] b[j]).0 == a[m].0;
        let i = choose|i: int| 0 <= i < a.len() && (#[trigger] a[i]).0 == b[n].0;
        if j < n && i < m {
            assert(precedes(b[j].0, b[n].0));
            assert(precedes(a[i].0, a[m].0));
            lemma_precedes_transitive(a[m].0, b[n].0, a[m].0);
            lemma_precedes_irreflexive(a[m].0);
        }
        assert(a.last() == b.last());
        let x = a.drop_last();
        let y = b.drop_last();
        assert(forall|k: int| 0 <= k < x.len() ==> x[k] == a[k]);
        assert(forall|k: int| 0 <= k < y.len() ==> y[k] == b[k]);
        lemma_gathered_front(a);
        lemma_gathered_front(b);
        lemma_listing_unique(x, y);
        assert(a =~= x.push(a.last()));
        assert(b =~= y.push(b.last()));
    }
}

/// Without its last pair a sorted list lacks just that pair's key.
proof fn lemma_gathered_front(a: Seq<(Seq<char>, Seq<char>)>)
    requires
        sorted(a),
        a.len() > 0,
    ensures
        gathered(a.drop_last()) == gathered(a).remove(a.last().0),
{
    let x = a.drop_last();
    let key = a.last().0;
    lemma_gathered_keys(x, key);
    if gathered(x).contains_key(key) {
        let i = choose|i: int| 0 <= i < x.len() && (#[trigger] x[i]).0 == key;
        assert(precedes(a[i].0, a[a.len() - 1].0));
        lemma_precedes_irreflexive(key);
    }
    assert(gathered(x) =~= gathered(a).remove(key));
}

/// A sorted list is the listing of what it gathers.
pub proof fn lemma_listing(pairs: Seq<(Seq<char>, Seq<char>)>)
    requires
        sorted(pairs),
    ensures
        listing(gathered(pairs)) == pairs,
{
    lemma_listing_unique(listing(gathered(pairs)), pairs);
}

/// Two sorted lists that differ in one key gather maps that differ in that key.
proof fn lemma_gathered_insert(
    old_pairs: Seq<(Seq<char>, Seq<char>)>,
    new_pairs: Seq<(Seq<char>, Seq<char>)>,
    at: int,
    fresh: bool,
)
    requires
        sorted(old_pairs),
        sorted(new_pairs),
        0 <= at < new_pairs.len(),
        fresh ==> at <= old_pairs.len() && new_pairs == old_pairs.insert(at, new_pairs[at]),
        !fresh ==> at < old_pairs.len() && new_pairs == old_pairs.update(at, new_pairs[at])
            && old_pairs[at].0 == new_pairs[at].0,
    ensures
        gathered(new_pairs) == gathered(old_pairs).insert(new_pairs[at].0, new_pairs[at].1),
{
    let key = new_pairs[at].0;
    let before = gathered(old_pairs);
    let after = gathered(new_pairs);
    lemma_gathered_value(new_pairs, at);
    assert forall|k: Seq<char>|
        #![trigger after.dom().contains(k)]
        #![trigger before.dom().contains(k)]
        #![trigger after[k]]
        k != key implies after.dom().contains(k) == before.dom().contains(k) && (
    before.dom().contains(k) ==> after[k] == before[k]) by {
        lemma_gathered_keys(old_pairs, k);
        lemma_gathered_keys(new_pairs, k);
        if before.contains_key(k) {
            let i = choose|i: int| 0 <= i < old_pairs.len() && (#[trigger] old_pairs[i]).0 == k;
            let j = if fresh && i >= at {
                i + 1
            } else {
                i
            };
            assert(new_pairs[j] == old_pairs[i]);
            lemma_gathered_value(old_pairs, i);
            lemma_gathered_value(new_pairs, j);
        }
        if after.contains_key(k) {
            let j = choose|j: int| 0 <= j < new_pairs.len() && (#[trigger] new_pairs[j]).0 == k;
            let i = if fresh && j > at {
                j - 1
            } else {
                j
            };
            assert(new_pairs[j] == old_pairs[i]);
        }
    }
    assert(after =~= before.insert(key, new_pairs[at].1));
}

/// Whether `at` is where `key` belongs in a sorted list: all pairs before it have smaller keys,
/// and the pair there, if any, has not.
spec fn belongs_at(pairs: Seq<(Seq<char>, Seq<char>)>, key: Seq<char>, at: int) -> bool {
    &&& 0 <= at <= pairs.len()
    &&& forall|i: int| 0 <= i < at ==> precedes((#[trigger] pairs[i]).0, key)
    &&& at < pairs.len() ==> !precedes(pairs[at].0, key)
}

/// A sorted list with one pair put where its key belongs.
spec fn with_pair(
    pairs: Seq<(Seq<char>, Seq<char>)>,
    pair: (Seq<char>, Seq<char>),
    at: int,
) -> Seq<(Seq<char>, Seq<char>)> {
    if at < pairs.len() && pairs[at].0 == pair.0 {
        pairs.update(at, pair)
    } else {
        pairs.insert(at, pair)
    }
}

/// Putting a pair where its key belongs keeps a list sorted and gives the key its value.
proof fn lemma_with_pair(
    before: Seq<(Seq<char>, Seq<char>)>,
    pair: (Seq<char>, Seq<char>),
    at: int,
)
    requires
        sorted(before),
        belongs_at(before, pair.0, at),
    ensures
        sorted(with_pair(before, pair, at)),
        gathered(with_pair(before, pair, at)) == gathered(before).insert(pair.0, pair.1),
{
    let after = with_pair(before, pair, at);
    let key = pair.0;
    if at < before.len() && before[at].0 == key {
        assert forall|i: int, j: int| 0 <= i < j < after.len() implies precedes(
            #[trigger] after[i].0,
            #[trigger] after[j].0,
        ) by {
            assert(after[i].0 == before[i].0);
            assert(after[j].0 == before[j].0);
        }
        lemma_gathered_insert(before, after, at, false);
    } else {
        if at < before.len() {
            lemma_precedes_total(before[at].0, key);
        }
        assert forall|i: int, j: int| 0 <= i < j < after.len() implies precedes(
            #[trigger] after[i].0,
            #[trigger] after[j].0,
        ) by {
            if i == at {
                assert(after[j] == before[j - 1]);
                if j - 1 > at {
                    assert(precedes(before[at].0, before[j - 1].0));
                    lemma_precedes_transitive(key, before[at].0, before[j - 1].0);
                }
            } else if j == at {
                assert(after[i] == before[i]);
            } else {
                let x = if i < at { i } else { i - 1 };
                let y = if j < at { j } else { j - 1 };
                assert(after[i] == before[x]);
                assert(after[j] == before[y]);
            }
        }
        lemma_gathered_insert(before, after, at, true);
    }
}

/// Each key belongs somewhere in a sorted list.
proof fn lemma_belongs(pairs: Seq<(Seq<char>, Seq<char>)>, key: Seq<char>) -> (at: int)
    requires
        sorted(pairs),
    ensures
        belongs_at(pairs, key, at),
    decreases pairs.len(),
{
    if pairs.len() == 0 {
        0
    } else {
        let front = pairs.drop_last();
        assert(forall|k: int| 0 <= k < front.len() ==> front[k] == pairs[k]);
        let at = lemma_belongs(front, key);
        assert(forall|k: int| 0 <= k < at ==> precedes((#[trigger] pairs[k]).0, key)) by {
            assert(forall|k: int| 0 <= k < at ==> precedes((#[trigger] front[k]).0, key));
        }
        if at == front.len() && precedes(pairs[at].0, key) {
            at + 1
        } else {
            at
        }
    }
}

/// A list that gathers what `pairs` gathers, with its keys in order.
proof fn lemma_sorted_list(pairs: Seq<(Seq<char>, Seq<char>)>) -> (list: Seq<
    (Seq<char>, Seq<char>),
>)
    ensures
        sorted(list),
        gathered(list) == gathered(pairs),
    decreases pairs.len(),
{
    if pairs.len() == 0 {
        pairs
    } else {
        let list = lemma_sorted_list(pairs.drop_last());
        let at = lemma_belongs(list, pairs.last().0);
        lemma_with_pair(list, pairs.last(), at);
        with_pair(list, pairs.last(), at)
    }
}

/// What any list of pairs assigns has a listing: the keys in order, each once, with its value.
pub proof fn lemma_listing_of_gathered(pairs: Seq<(Seq<char>, Seq<char>)>)
    ensures
        sorted(listing(gathered(pairs))),
        gathered(listing(gathered(pairs))) == gathered(pairs),
{
    let list = lemma_sorted_list(pairs);
    lemma_listing(list);
}

/// The value of a key is that of one of the pairs.
proof fn lemma_gathered_from(pairs: Seq<(Seq<char>, Seq<char>)>, key: Seq<char>)
    requires
        gathered(pairs).contains_key(key),
    ensures
        pairs.contains((key, gathered(pairs)[key])),
    decreases pairs.len(),
{
    let pair = (key, gathered(pairs)[key]);
    if pairs.last().0 == key {
        assert(pairs[pairs.len() - 1] == pair);
    } else {
        let front = pairs.drop_last();
        lemma_gathered_from(front, key);
        let i = choose|i: int| 0 <= i < front.len() && front[i] == pair;
        assert(pairs[i] == pair);
    }
}

/// What is listed of a list of pairs are pairs of it.
pub proof fn lemma_listing_from(pairs: Seq<(Seq<char>, Seq<char>)>, i: int)
    requires
        0 <= i < listing(gathered(pairs)).len(),
    ensures
        pairs.contains(listing(gathered(pairs))[i]),
{
    let list = listing(gathered(pairs));
    lemma_listing_of_gathered(pairs);
    lemma_gathered_value(list, i);
    lemma_gathered_from(pairs, list[i].0);
}

/// Gives `key` its value in a sorted list.
fn put(entries: &mut Vec<(String, String)>, key: String, value: String)
    requires
        sorted(pair_texts(old(entries)@)),
    ensures
        sorted(pair_texts(final(entries)@)),
        gathered(pair_texts(final(entries)@)) == gathered(pair_texts(old(entries)@)).insert(
            key@,
            value@,
        ),
{
    let ghost before = pair_texts(entries@);
    let mut at: usize = 0;
    while at < entries.len() && text_precedes(entries[at].0.as_str(), key.as_str())
        invariant
            at <= entries.len(),
            before == pair_texts(entries@),
            forall|i: int| 0 <= i < at ==> precedes((#[trigger] before[i]).0, key@),
        decreases entries.len() - at,
    {
        assert(before[at as int].0 == entries@[at as int].0@);
        at += 1;
    }
    let ghost pair = (key@, value@);
    proof {
        if at < entries@.len() {
            assert(before[at as int].0 == entries@[at as int].0@);
        }
        lemma_with_pair(before, pair, at as int);
    }
    if at < entries.len() && same_text(entries[at].0.as_str(), key.as_str()) {
        entries.set(at, (key, value));
    } else {
        entries.insert(at, (key, value));
    }
    assert(pair_texts(entries@) =~= with_pair(before, pair, at as int));
}

/// One value for each key.
#[derive(Debug)]
pub struct Params {
    entries: Vec<(String, String)>,
}

impl View for Params {
    type V = Map<Seq<char>, Seq<char>>;

    closed spec fn view(&self) -> Map<Seq<char>, Seq<char>> {
        gathered(pair_texts(self.entries@))
    }
}

impl Params {
    #[verifier::type_invariant]
    spec fn well_formed(self) -> bool {
        sorted(pair_texts(self.entries@))
    }

    /// Gathers pairs: of several with one key the last counts.
    pub fn gather(pairs: &Vec<(String, String)>) -> (params: Params)
        ensures
            params@ == gathered(pair_texts(pairs@)),
    {
        let mut entries: Vec<(String, String)> = Vec::new();
        let mut i: usize = 0;
        let ghost all = pair_texts(pairs@);
        while i < pairs.len()
            invariant
                i <= pairs.len(),
                all == pair_texts(pairs@),
                sorted(pair_texts(entries@)),
                gathered(pair_texts(entries@)) == gathered(all.take(i as int)),
            decreases pairs.len() - i,
        {
            put(&mut entries, pairs[i].0.clone(), pairs[i].1.clone());
            assert(all.take(i + 1).drop_last() =~= all.take(i as int));
            i += 1;
        }
        assert(all.take(i as int) =~= all);
        Params { entries }
    }

    /// The value of `key`.
    pub fn get(&self, key: &str) -> (value: Option<&str>)
        ensures
            match value {
                Some(v) => value_of(self@, key@) == Some(v@),
                None => value_of(self@, key@) is None,
            },
    {
        proof {
            use_type_invariant(self);
        }
        let ghost pairs = pair_texts(self.entries@);
        let mut i: usize = 0;
        while i < self.entries.len()
            invariant
                i <= self.entries.len(),
                pairs == pair_texts(self.entries@),
                sorted(pairs),
                self@ == gathered(pairs),
                forall|j: int| 0 <= j < i ==> (#[trigger] pairs[j]).0 != key@,
            decreases self.entries.len() - i,
        {
            assert(pairs[i as int].0 == self.entries@[i as int].0@);
            if same_text(self.entries[i].0.as_str(), key) {
                proof {
                    lemma_gathered_value(pairs, i as int);
                }
                return Some(self.entries[i].1.as_str());
            }
            i += 1;
        }
        proof {
            lemma_gathered_keys(pairs, key@);
        }
        None
    }

    /// Gives `key` the value `value`.
    pub fn set(&mut self, key: &str, value: &str)
        ensures
            final(self)@ == old(self)@.insert(key@, value@),
    {
        proof {
            use_type_invariant(&*self);
        }
        let mut entries: Vec<(String, String)> = Vec::new();
        assert(pair_texts(entries@) =~= Seq::empty());
        std::mem::swap(&mut entries, &mut self.entries);
        put(&mut entries, key.to_owned(), value.to_owned());
        self.entries = entries;
    }

    /// The pairs in the order of their keys.
    pub fn entries(&self) -> (entries: &Vec<(String, String)>)
        ensures
            pair_texts(entries@) == listing(self@),
    {
        proof {
            use_type_invariant(self);
            lemma_listing(pair_texts(self.entries@));
        }
        &self.entries
    }
}

} // verus!
