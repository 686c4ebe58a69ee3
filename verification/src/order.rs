//! The order of texts, and ranking by a numeric key.
use vstd::prelude::*;

use crate::text::to_chars;

verus! {

/// Whether `a` comes before `b` in dictionary order, character by character.
pub open spec fn precedes(a: Seq<char>, b: Seq<char>) -> bool
    decreases a.len(),
{
    if b.len() == 0 {
        false
    } else if a.len() == 0 {
        true
    } else if a.first() == b.first() {
        precedes(a.drop_first(), b.drop_first())
    } else {
        a.first() < b.first()
    }
}

/// No text comes before itself.
pub proof fn lemma_precedes_irreflexive(a: Seq<char>)
    ensures
        !precedes(a, a),
    decreases a.len(),
{
    if a.len() > 0 {
        lemma_precedes_irreflexive(a.drop_first());
    }
}

/// What comes before a second text comes before all that the second precedes.
pub proof fn lemma_precedes_transitive(a: Seq<char>, b: Seq<char>, c: Seq<char>)
    requires
        precedes(a, b),
        precedes(b, c),
    ensures
        precedes(a, c),
    decreases a.len(),
{
    if a.len() > 0 && a.first() == b.first() && b.first() == c.first() {
        lemma_precedes_transitive(a.drop_first(), b.drop_first(), c.drop_first());
    }
}

/// Of two different texts one comes before the other.
pub proof fn lemma_precedes_total(a: Seq<char>, b: Seq<char>)
    ensures
        a == b || precedes(a, b) || precedes(b, a),
    decreases a.len(),
{
    if a.len() > 0 && b.len() > 0 && a.first() == b.first() {
        lemma_precedes_total(a.drop_first(), b.drop_first());
        if a.drop_first() == b.drop_first() {
            assert(a =~= seq![a.first()] + a.drop_first());
            assert(b =~= seq![b.first()] + b.drop_first());
        }
    } else if a.len() == 0 && b.len() == 0 {
        assert(a =~= b);
    }
}

/// Whether `a` comes before `b`.
pub fn text_precedes(a: &str, b: &str) -> (before: bool)
    ensures
        before == precedes(a@, b@),
{
    let x = to_chars(a);
    let y = to_chars(b);
    let mut i: usize = 0;
    assert(x@.skip(0) =~= a@);
    assert(y@.skip(0) =~= b@);
    while i < x.len() && i < y.len()
        invariant
            i <= x.len(),
            i <= y.len(),
            precedes(a@, b@) == precedes(x@.skip(i as int), y@.skip(i as int)),
        decreases x.len() - i,
    {
        if x[i] != y[i] {
            return x[i] < y[i];
        }
        assert(x@.skip(i as int).drop_first() =~= x@.skip(i + 1));
        assert(y@.skip(i as int).drop_first() =~= y@.skip(i + 1));
        i += 1;
    }
    i < y.len()
}

/// Whether the item at `a` ranks above the item at `b`: its key is greater, or the keys are the
/// same and it stands earlier.
pub open spec fn outranks(keys: Seq<int>, a: int, b: int) -> bool {
    keys[a] > keys[b] || (keys[a] == keys[b] && a < b)
}

/// Whether `order` lists the places of all items, each above the next.
pub open spec fn ranks(keys: Seq<int>, order: Seq<int>) -> bool {
    &&& order.len() == keys.len()
    &&& forall|i: int| 0 <= i < order.len() ==> 0 <= #[trigger] order[i] < keys.len()
    &&& forall|i: int, j: int|
        0 <= i < j < order.len() ==> outranks(keys, #[trigger] order[i], #[trigger] order[j])
    &&& forall|k: int| 0 <= k < keys.len() ==> #[trigger] order.contains(k)
}

/// The places of the items from the greatest key to the least, items with the same key in the
/// order in which they stand.
pub open spec fn ranking(keys: Seq<int>) -> Seq<int> {
    choose|order: Seq<int>| ranks(keys, order)
}

/// There is only one ranking.
pub proof fn lemma_ranks_unique(keys: Seq<int>, a: Seq<int>, b: Seq<int>)
    requires
        ranks(keys, a),
        ranks(keys, b),
    ensures
        a == b,
{
    lemma_ranks_agree(keys, a, b, a.len() as int);
    assert(a =~= b);
}

/// Two rankings agree on their first `n` places.
proof fn lemma_ranks_agree(keys: Seq<int>, a: Seq<int>, b: Seq<int>, n: int)
    requires
        ranks(keys, a),
        ranks(keys, b),
        0 <= n <= a.len(),
    ensures
        forall|k: int| 0 <= k < n ==> a[k] == b[k],
    decreases n,
{
    if n > 0 {
        lemma_ranks_agree(keys, a, b, n - 1);
        let x = a[n - 1];
        let y = b[n - 1];
        if x != y {
            assert(b.contains(x));
            assert(a.contains(y));
            let j = choose|j: int| 0 <= j < b.len() && b[j] == x;
            let i = choose|i: int| 0 <= i < a.len() && a[i] == y;
            if j < n - 1 {
                assert(a[j] == x);
                assert(outranks(keys, a[j], a[n - 1]));
            }
            if i < n - 1 {
                assert(b[i] == y);
                assert(outranks(keys, b[i], b[n - 1]));
            }
            assert(outranks(keys, b[n - 1], b[j]));
            assert(outranks(keys, a[n - 1], a[i]));
        }
    }
}

/// Whether `at` is where an item with `key`, standing after all others, ranks.
spec fn ranks_at(keys: Seq<int>, order: Seq<int>, key: int, at: int) -> bool {
    &&& 0 <= at <= order.len()
    &&& forall|i: int| 0 <= i < at ==> keys[#[trigger] order[i]] >= key
    &&& at < order.len() ==> keys[order[at]] < key
}

/// Ranking one more item.
proof fn lemma_rank_one_more(keys: Seq<int>, order: Seq<int>, key: int, at: int)
    requires
        ranks(keys, order),
        ranks_at(keys, order, key, at),
    ensures
        ranks(keys.push(key), order.insert(at, keys.len() as int)),
{
    let n = keys.len() as int;
    let more = keys.push(key);
    let next = order.insert(at, n);
    assert forall|i: int| 0 <= i < next.len() implies 0 <= #[trigger] next[i] < more.len() by {
        if i < at {
            assert(next[i] == order[i]);
        } else if i > at {
            assert(next[i] == order[i - 1]);
        }
    }
    assert forall|i: int, j: int| 0 <= i < j < next.len() implies outranks(
        more,
        #[trigger] next[i],
        #[trigger] next[j],
    ) by {
        let x = if i < at { i } else { i - 1 };
        let y = if j < at { j } else { j - 1 };
        if i == at {
            assert(next[j] == order[y]);
            assert(y >= at);
            if y > at {
                assert(outranks(keys, order[at], order[y]));
            }
        } else if j == at {
            assert(next[i] == order[x]);
        } else {
            assert(next[i] == order[x]);
            assert(next[j] == order[y]);
            assert(outranks(keys, order[x], order[y]));
        }
    }
    assert forall|k: int| 0 <= k < more.len() implies #[trigger] next.contains(k) by {
        if k == n {
            assert(next[at] == k);
        } else {
            assert(order.contains(k));
            let i = choose|i: int| 0 <= i < order.len() && order[i] == k;
            let j = if i < at { i } else { i + 1 };
            assert(next[j] == k);
        }
    }
}

/// Each item ranks somewhere.
proof fn lemma_ranks_somewhere(keys: Seq<int>, order: Seq<int>, key: int, n: int) -> (at: int)
    requires
        0 <= n <= order.len(),
        forall|i: int| 0 <= i < n ==> keys[#[trigger] order[i]] >= key,
    ensures
        ranks_at(keys, order, key, at),
    decreases order.len() - n,
{
    if n < order.len() && keys[order[n]] >= key {
        lemma_ranks_somewhere(keys, order, key, n + 1)
    } else {
        n
    }
}

/// Every list of items has its ranking.
pub proof fn lemma_ranking(keys: Seq<int>)
    ensures
        ranks(keys, ranking(keys)),
    decreases keys.len(),
{
    if keys.len() == 0 {
        assert(ranks(keys, Seq::empty()));
    } else {
        let front = keys.drop_last();
        lemma_ranking(front);
        let order = ranking(front);
        let at = lemma_ranks_somewhere(front, order, keys.last(), 0);
        lemma_rank_one_more(front, order, keys.last(), at);
        assert(front.push(keys.last()) =~= keys);
        assert(ranks(keys, order.insert(at, front.len() as int)));
    }
}

/// The keys as integers.
pub open spec fn ints(keys: Seq<i128>) -> Seq<int> {
    Seq::new(keys.len(), |i: int| keys[i] as int)
}

/// The places as integers.
pub open spec fn places(order: Seq<usize>) -> Seq<int> {
    Seq::new(order.len(), |i: int| order[i] as int)
}

/// Ranks items by their keys.
pub fn rank(keys: &Vec<i128>) -> (order: Vec<usize>)
    ensures
        places(order@) == ranking(ints(keys@)),
        ranks(ints(keys@), places(order@)),
{
    let mut order: Vec<usize> = Vec::new();
    let ghost all = ints(keys@);
    let mut n: usize = 0;
    assert(places(order@) =~= Seq::<int>::empty());
    assert(all.take(0) =~= Seq::<int>::empty());
    while n < keys.len()
        invariant
            n <= keys.len(),
            all == ints(keys@),
            order@.len() == n,
            ranks(all.take(n as int), places(order@)),
        decreases keys.len() - n,
    {
        let key = keys[n];
        let ghost done = all.take(n as int);
        let ghost before = places(order@);
        let mut at: usize = 0;
        assert(forall|i: int| 0 <= i < before.len() ==> 0 <= #[trigger] before[i] < n);
        assert forall|i: int| 0 <= i < n implies (#[trigger] order@[i]) < n by {
            assert(before[i] == order@[i]);
        }
        while at < order.len() && keys[order[at]] >= key
            invariant
                at <= order.len(),
                n < keys.len(),
                order@.len() == n,
                all == ints(keys@),
                done == all.take(n as int),
                before == places(order@),
                forall|i: int| 0 <= i < n ==> (#[trigger] order@[i]) < n,
                forall|i: int| 0 <= i < at ==> done[#[trigger] before[i]] >= key,
            decreases order.len() - at,
        {
            assert(before[at as int] == order@[at as int]);
            at += 1;
        }
        proof {
            if at < order@.len() {
                assert(before[at as int] == order@[at as int]);
            }
            lemma_rank_one_more(done, before, key as int, at as int);
            assert(done.push(key as int) =~= all.take(n + 1));
        }
        order.insert(at, n);
        assert(places(order@) =~= before.insert(at as int, n as int));
        n += 1;
    }
    assert(all.take(n as int) =~= all);
    proof {
        lemma_ranking(all);
        lemma_ranks_unique(all, places(order@), ranking(all));
    }
    order
}

} // verus!
