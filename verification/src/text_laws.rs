//! What the operations on text are for, in terms of the texts that go in and come out.
use vstd::prelude::*;

use crate::order::{lemma_ranking, outranks, precedes, ranking};
use crate::text::{after_first, after_last, before_first, decimal, digit, find_char, first_chars};
use crate::text::{has_text, joined, lemma_find_char, lemma_find_char_found, line_texts, padded};
use crate::text::{repeated, replaced, stands_at, texts, trim_end, trim_start, trimmed, white_space};
use crate::text::{without_chars, without_white_space};

verus! {

/// A list of strings holds the text of each of them.
pub proof fn law_texts(strings: Seq<String>, i: int)
    requires
        0 <= i < strings.len(),
    ensures
        texts(strings).len() == strings.len(),
        texts(strings)[i] == strings[i]@,
{
}

/// Where the leading white space ends.
proof fn lemma_start(s: Seq<char>) -> (i: int)
    ensures
        0 <= i <= s.len(),
        trim_start(s) == s.skip(i),
        forall|k: int| 0 <= k < i ==> white_space(#[trigger] s[k]),
        i < s.len() ==> !white_space(s[i]),
    decreases s.len(),
{
    if s.len() > 0 && white_space(s.first()) {
        let rest = s.drop_first();
        let i = lemma_start(rest);
        assert(rest.skip(i) =~= s.skip(i + 1));
        assert forall|k: int| 0 <= k < i + 1 implies white_space(#[trigger] s[k]) by {
            if k > 0 {
                assert(s[k] == rest[k - 1]);
            }
        }
        if i < rest.len() {
            assert(s[i + 1] == rest[i]);
        }
        i + 1
    } else {
        assert(s.skip(0) =~= s);
        0
    }
}

/// Where the trailing white space begins.
proof fn lemma_end(s: Seq<char>) -> (j: int)
    ensures
        0 <= j <= s.len(),
        trim_end(s) == s.take(j),
        forall|k: int| j <= k < s.len() ==> white_space(#[trigger] s[k]),
        j > 0 ==> !white_space(s[j - 1]),
    decreases s.len(),
{
    if s.len() > 0 && white_space(s.last()) {
        let rest = s.drop_last();
        let j = lemma_end(rest);
        assert(rest.take(j) =~= s.take(j));
        assert forall|k: int| j <= k < s.len() implies white_space(#[trigger] s[k]) by {
            if k < rest.len() {
                assert(s[k] == rest[k]);
            }
        }
        if j > 0 {
            assert(s[j - 1] == rest[j - 1]);
        }
        j
    } else {
        assert(s.take(s.len() as int) =~= s);
        s.len() as int
    }
}

/// Trimming keeps one stretch of a text: nothing but white space is cut off, and none is left at
/// either end.
pub proof fn law_trimmed(s: Seq<char>)
    ensures
        exists|i: int, j: int|
            0 <= i <= j <= s.len() && trimmed(s) == #[trigger] s.subrange(i, j) && (forall|k: int|
                (0 <= k < i || j <= k < s.len()) ==> white_space(#[trigger] s[k])) && (i < j ==> (
            !white_space(s[i]) && !white_space(s[j - 1]))),
{
    let i = lemma_start(s);
    let rest = s.skip(i);
    let j = lemma_end(rest);
    assert(rest.take(j) =~= s.subrange(i, i + j));
    assert forall|k: int| (0 <= k < i || i + j <= k < s.len()) implies white_space(
        #[trigger] s[k],
    ) by {
        if k >= i + j {
            assert(rest[k - i] == s[k]);
        }
    }
    if j > 0 {
        assert(rest[j - 1] == s[i + j - 1]);
        if i >= s.len() {
            assert(rest.len() == 0);
        }
    }
}

/// Cutting at the first `c` gives back what stands before it and after it.
pub proof fn law_cut_at_first(a: Seq<char>, c: char, b: Seq<char>)
    requires
        forall|i: int| 0 <= i < a.len() ==> (#[trigger] a[i]) != c,
    ensures
        before_first(a + seq![c] + b, c) == a,
        after_first(a + seq![c] + b, c) == Some(b),
        before_first(a, c) == a,
        after_first(a, c) is None,
{
    let s = a + seq![c] + b;
    assert(s[a.len() as int] == c);
    assert forall|j: int| 0 <= j < a.len() implies s[j] != c by {
        assert(s[j] == a[j]);
    }
    lemma_find_char(s, c, a.len());
    lemma_find_char(a, c, a.len());
    assert(s.take(a.len() as int) =~= a);
    assert(s.skip(a.len() as int + 1) =~= b);
    assert(a.take(a.len() as int) =~= a);
}

/// What stands after the last `c` is what follows it and holds none, or all of a text without.
pub proof fn law_after_last(a: Seq<char>, c: char, b: Seq<char>)
    requires
        forall|i: int| 0 <= i < b.len() ==> (#[trigger] b[i]) != c,
    ensures
        after_last(a + seq![c] + b, c) == b,
        after_last(b, c) == b,
    decreases a.len(),
{
    let s = a + seq![c] + b;
    lemma_find_char(b, c, b.len());
    assert(after_last(b, c) == b);
    lemma_find_char_found(a, c);
    let at = find_char(a, c) as int;
    if at < a.len() {
        let rest = a.skip(at + 1);
        assert(a =~= a.take(at) + seq![c] + rest);
        assert(s =~= a.take(at) + seq![c] + (rest + seq![c] + b));
        law_cut_at_first(a.take(at), c, rest + seq![c] + b);
        law_after_last(rest, c, b);
        assert(after_last(s, c) == after_last(rest + seq![c] + b, c));
    } else {
        law_cut_at_first(a, c, b);
        assert(after_last(s, c) == after_last(b, c));
    }
}

/// An empty text has no lines, one without a line feed is one line, and a line feed, with or
/// without a carriage return before it, ends a line.
pub proof fn law_lines(a: Seq<char>, b: Seq<char>)
    requires
        forall|i: int| 0 <= i < a.len() ==> (#[trigger] a[i]) != '\n',
    ensures
        line_texts(Seq::empty()) == Seq::<Seq<char>>::empty(),
        a.len() > 0 ==> line_texts(a) == seq![a],
        line_texts(a + seq!['\r', '\n'] + b) == seq![a] + line_texts(b),
        a.len() == 0 || a.last() != '\r' ==> line_texts(a + seq!['\n'] + b) == seq![a] + line_texts(
            b,
        ),
{
    lemma_find_char(a, '\n', a.len());
    let s = a + seq!['\n'] + b;
    assert forall|j: int| 0 <= j < a.len() implies s[j] != '\n' by {
        assert(s[j] == a[j]);
    }
    assert(s[a.len() as int] == '\n');
    lemma_find_char(s, '\n', a.len());
    assert(s.take(a.len() as int) =~= a);
    assert(s.skip(a.len() as int + 1) =~= b);
    let r = a + seq!['\r', '\n'] + b;
    let n = (a.len() + 1) as nat;
    assert forall|j: int| 0 <= j < n implies r[j] != '\n' by {
        if j < a.len() {
            assert(r[j] == a[j]);
        }
    }
    assert(r[n as int] == '\n');
    lemma_find_char(r, '\n', n);
    assert(r.take(n as int) =~= a.push('\r'));
    assert(r.take(n as int).drop_last() =~= a);
    assert(r.skip(n as int + 1) =~= b);
}

/// A pattern stands in a text exactly where the text is something, the pattern and something.
pub proof fn law_has_text(s: Seq<char>, pattern: Seq<char>)
    ensures
        has_text(s, pattern) <==> exists|a: Seq<char>, b: Seq<char>| #[trigger]
            (a + pattern + b) == s,
{
    if has_text(s, pattern) {
        let at = choose|at: int| stands_at(s, pattern, at);
        let a = s.take(at);
        let b = s.skip(at + pattern.len());
        assert(s.subrange(at, at + pattern.len()) == pattern);
        assert(a + pattern + b =~= s);
    }
    if exists|a: Seq<char>, b: Seq<char>| #[trigger] (a + pattern + b) == s {
        let (a, b) = choose|a: Seq<char>, b: Seq<char>| #[trigger] (a + pattern + b) == s;
        assert(s.subrange(a.len() as int, a.len() as int + pattern.len()) =~= pattern);
        assert(stands_at(s, pattern, a.len() as int));
    }
}

/// The leftmost `from` becomes `to`, and what follows it is treated alike; a text without any
/// stays as it is.
pub proof fn law_replaced(a: Seq<char>, from: Seq<char>, b: Seq<char>, to: Seq<char>)
    requires
        from.len() > 0,
    ensures
        (forall|k: int|
            0 <= k < a.len() ==> #[trigger] (a + from + b).subrange(k, k + from.len()) != from)
            ==> replaced(a + from + b, from, to) == a + to + replaced(b, from, to),
        (forall|k: int|
            0 <= k && k + from.len() <= a.len() ==> #[trigger] a.subrange(k, k + from.len())
                != from) ==> replaced(a, from, to) == a,
    decreases a.len(),
{
    let s = a + from + b;
    if a.len() == 0 {
        assert(s.subrange(0, from.len() as int) =~= from);
        assert(s.skip(from.len() as int) =~= b);
        assert(replaced(s, from, to) =~= a + to + replaced(b, from, to));
    } else {
        let rest = a.drop_first();
        let t = rest + from + b;
        assert(s.drop_first() =~= t);
        law_replaced(rest, from, b, to);
        if forall|k: int| 0 <= k < a.len() ==> #[trigger] s.subrange(k, k + from.len()) != from {
            assert forall|k: int| 0 <= k < rest.len() implies #[trigger] t.subrange(
                k,
                k + from.len(),
            ) != from by {
                assert(t.subrange(k, k + from.len()) =~= s.subrange(k + 1, k + 1 + from.len()));
            }
            assert(s.subrange(0, 0int + from.len()) != from);
            assert(!stands_at(s, from, 0));
            assert(replaced(s, from, to) =~= a + to + replaced(b, from, to));
        }
        if forall|k: int|
            0 <= k && k + from.len() <= a.len() ==> #[trigger] a.subrange(k, k + from.len())
                != from {
            assert forall|k: int|
                0 <= k && k + from.len() <= rest.len() implies #[trigger] rest.subrange(
                k,
                k + from.len(),
            ) != from by {
                assert(rest.subrange(k, k + from.len()) =~= a.subrange(k + 1, k + 1 + from.len()));
            }
            if a.len() >= from.len() {
                assert(a.subrange(0, 0int + from.len()) != from);
            }
            assert(!stands_at(a, from, 0));
            assert(replaced(a, from, to) =~= a);
        }
    }
}

/// Filtering one item.
proof fn lemma_filter_one(c: char, keep: spec_fn(char) -> bool)
    ensures
        seq![c].filter(keep) == if keep(c) {
            seq![c]
        } else {
            Seq::empty()
        },
{
    reveal(Seq::filter);
    let one = seq![c];
    let none = one.drop_last();
    assert(none.filter(keep) =~= Seq::empty());
    assert(one.filter(keep) =~= if keep(c) {
        seq![c]
    } else {
        Seq::empty()
    });
}

/// Characters are removed one by one: each that is dropped goes, each other stays, and the parts
/// of a text do not bear on each other.
pub proof fn law_without_chars(a: Seq<char>, c: char, b: Seq<char>, dropped: Seq<char>)
    ensures
        without_chars(a + b, dropped) == without_chars(a, dropped) + without_chars(b, dropped),
        without_chars(seq![c], dropped) == if exists|i: int|
            0 <= i < dropped.len() && dropped[i] == c {
            Seq::empty()
        } else {
            seq![c]
        },
        without_white_space(a + b) == without_white_space(a) + without_white_space(b),
        without_white_space(seq![c]) == if white_space(c) {
            Seq::empty()
        } else {
            seq![c]
        },
{
    let keep = |c: char| !dropped.contains(c);
    let inked = |c: char| !white_space(c);
    Seq::filter_distributes_over_add(a, b, keep);
    Seq::filter_distributes_over_add(a, b, inked);
    lemma_filter_one(c, keep);
    lemma_filter_one(c, inked);
}

/// The first characters of a text are its beginning, as long as asked for or as there is.
pub proof fn law_first_chars(s: Seq<char>, n: nat)
    ensures
        first_chars(s, n).len() == if s.len() < n {
            s.len()
        } else {
            n
        },
        forall|i: int| 0 <= i < first_chars(s, n).len() ==> #[trigger] first_chars(s, n)[i] == s[i],
{
}

/// Lists that are joined are joined at the separator; one part is joined to itself.
pub proof fn law_joined(a: Seq<Seq<char>>, b: Seq<Seq<char>>, separator: Seq<char>)
    requires
        a.len() > 0,
        b.len() > 0,
    ensures
        joined(a + b, separator) == joined(a, separator) + separator + joined(b, separator),
        a.len() == 1 ==> joined(a, separator) == a[0],
        joined(Seq::empty(), separator) == Seq::<char>::empty(),
    decreases b.len(),
{
    let all = a + b;
    assert(all.last() == b.last());
    assert(all.drop_last() =~= a + b.drop_last());
    if b.len() == 1 {
        assert(all.drop_last() =~= a);
        assert(joined(all, separator) =~= joined(a, separator) + separator + joined(b, separator));
    } else {
        law_joined(a, b.drop_last(), separator);
        assert(joined(all, separator) =~= joined(a, separator) + separator + joined(b, separator));
    }
}

/// The number that digits write.
pub open spec fn number_written(digits: Seq<char>) -> int
    decreases digits.len(),
{
    if digits.len() == 0 {
        0
    } else {
        10 * number_written(digits.drop_last()) + (digits.last() as int - '0' as int)
    }
}

/// A number is written in digits that give the number back, the first of which is not zero unless
/// it is the only one.
pub proof fn law_decimal(n: nat)
    ensures
        number_written(decimal(n)) == n,
        decimal(n).len() > 0,
        decimal(n).len() > 1 ==> decimal(n)[0] != '0',
        forall|i: int|
            0 <= i < decimal(n).len() ==> '0' <= #[trigger] decimal(n)[i] && decimal(n)[i] <= '9',
    decreases n,
{
    if n < 10 {
        assert(decimal(n).drop_last() =~= Seq::empty());
        assert(number_written(Seq::empty()) == 0);
    } else {
        law_decimal(n / 10);
        let front = decimal(n / 10);
        assert(decimal(n).drop_last() =~= front);
        assert forall|i: int| 0 <= i < decimal(n).len() implies '0' <= #[trigger] decimal(n)[i]
            && decimal(n)[i] <= '9' by {
            if i < front.len() {
                assert(decimal(n)[i] == front[i]);
            }
        }
        assert(decimal(n)[0] == front[0]);
        if n / 10 < 10 {
            assert(front =~= seq![digit(n / 10)]);
        } else {
            assert(front.len() > 1) by {
                law_decimal(n / 100);
                assert(n / 10 / 10 == n / 100);
            }
        }
    }
}

/// Padding keeps a text, adds only spaces after it, and stops at the width.
pub proof fn law_padded(s: Seq<char>, width: nat)
    ensures
        padded(s, width).len() == if s.len() < width {
            width
        } else {
            s.len()
        },
        forall|i: int|
            0 <= i < padded(s, width).len() ==> #[trigger] padded(s, width)[i] == if i < s.len() {
                s[i]
            } else {
                ' '
            },
{
}

/// A repeated character is all there is.
pub proof fn law_repeated(c: char, n: nat)
    ensures
        repeated(c, n).len() == n,
        forall|i: int| 0 <= i < n ==> #[trigger] repeated(c, n)[i] == c,
{
}

/// One text comes before another exactly where it is a beginning of it, or has the smaller
/// character at the first place where they differ.
pub proof fn law_precedes(a: Seq<char>, b: Seq<char>)
    ensures
        precedes(a, b) <==> exists|k: int|
            0 <= k <= a.len() && k < b.len() && #[trigger] a.take(k) == b.take(k) && (k == a.len()
                || a[k] < b[k]),
    decreases a.len(),
{
    if a.len() > 0 && b.len() > 0 && a.first() == b.first() {
        let x = a.drop_first();
        let y = b.drop_first();
        law_precedes(x, y);
        if precedes(a, b) {
            let k = choose|k: int|
                0 <= k <= x.len() && k < y.len() && #[trigger] x.take(k) == y.take(k) && (k
                    == x.len() || x[k] < y[k]);
            assert(a.take(k + 1) =~= seq![a.first()] + x.take(k));
            assert(b.take(k + 1) =~= seq![b.first()] + y.take(k));
            assert(a.take(k + 1) == b.take(k + 1));
        }
        if exists|k: int|
            0 <= k <= a.len() && k < b.len() && #[trigger] a.take(k) == b.take(k) && (k == a.len()
                || a[k] < b[k]) {
            let k = choose|k: int|
                0 <= k <= a.len() && k < b.len() && #[trigger] a.take(k) == b.take(k) && (k
                    == a.len() || a[k] < b[k]);
            assert(k > 0);
            assert(x.take(k - 1) =~= a.take(k).drop_first());
            assert(y.take(k - 1) =~= b.take(k).drop_first());
            assert(x.take(k - 1) == y.take(k - 1));
        }
    } else {
        assert(a.take(0) =~= b.take(0));
        if exists|k: int|
            0 <= k <= a.len() && k < b.len() && #[trigger] a.take(k) == b.take(k) && (k == a.len()
                || a[k] < b[k]) {
            let k = choose|k: int|
                0 <= k <= a.len() && k < b.len() && #[trigger] a.take(k) == b.take(k) && (k
                    == a.len() || a[k] < b[k]);
            if k > 0 {
                assert(a.take(k)[0] == b.take(k)[0]);
            }
        }
    }
}

/// A ranking holds each place once, goes from the greatest key to the least, and keeps places with
/// the same key in their order.
pub proof fn law_ranking(keys: Seq<int>)
    ensures
        ranking(keys).len() == keys.len(),
        forall|i: int| 0 <= i < keys.len() ==> 0 <= #[trigger] ranking(keys)[i] < keys.len(),
        forall|i: int, j: int|
            0 <= i < j < keys.len() ==> ({
                let a = #[trigger] ranking(keys)[i];
                let b = #[trigger] ranking(keys)[j];
                keys[a] > keys[b] || (keys[a] == keys[b] && a < b)
            }),
        forall|k: int| 0 <= k < keys.len() ==> #[trigger] ranking(keys).contains(k),
{
    lemma_ranking(keys);
    let order = ranking(keys);
    assert forall|i: int, j: int| 0 <= i < j < keys.len() implies ({
        let a = #[trigger] order[i];
        let b = #[trigger] order[j];
        keys[a] > keys[b] || (keys[a] == keys[b] && a < b)
    }) by {
        assert(outranks(keys, order[i], order[j]));
    }
}

} // verus!
