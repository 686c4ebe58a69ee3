//! Character-level operations on text, each stated over `Seq<char>`.
use vstd::prelude::*;

verus! {

/// The characters with the Unicode property White_Space.
pub open spec fn white_space(c: char) -> bool {
    ||| '\u{9}' <= c && c <= '\u{d}'
    ||| c == '\u{20}'
    ||| c == '\u{85}'
    ||| c == '\u{a0}'
    ||| c == '\u{1680}'
    ||| '\u{2000}' <= c && c <= '\u{200a}'
    ||| c == '\u{2028}'
    ||| c == '\u{2029}'
    ||| c == '\u{202f}'
    ||| c == '\u{205f}'
    ||| c == '\u{3000}'
}

/// Whether `c` is white space.
pub fn is_white_space(c: char) -> (white: bool)
    ensures
        white == white_space(c),
{
    ('\u{9}' <= c && c <= '\u{d}') || c == '\u{20}' || c == '\u{85}' || c == '\u{a0}' || c
        == '\u{1680}' || ('\u{2000}' <= c && c <= '\u{200a}') || c == '\u{2028}' || c == '\u{2029}'
        || c == '\u{202f}' || c == '\u{205f}' || c == '\u{3000}'
}

/// `String::push` appends one character to the end of the string.
pub assume_specification[ String::push ](string: &mut String, c: char)
    ensures
        final(string)@ == old(string)@.push(c),
;

/// The texts that a list of strings holds.
pub open spec fn texts(strings: Seq<String>) -> Seq<Seq<char>> {
    Seq::new(strings.len(), |i: int| strings[i]@)
}

/// The characters of `s`, one by one.
pub fn to_chars(s: &str) -> (chars: Vec<char>)
    ensures
        chars@ == s@,
{
    let mut chars: Vec<char> = Vec::new();
    for c in iter: s.chars()
        invariant
            chars@ == iter.seq().take(iter.index() as int),
            iter.seq() == s@,
    {
        chars.push(c);
    }
    assert(chars@ =~= s@);
    chars
}

/// The characters `from..to` as a string.
pub fn from_chars(chars: &Vec<char>, from: usize, to: usize) -> (s: String)
    requires
        from <= to <= chars.len(),
    ensures
        s@ == chars@.subrange(from as int, to as int),
{
    let mut s = String::new();
    let mut i: usize = from;
    while i < to
        invariant
            from <= i <= to <= chars.len(),
            s@ == chars@.subrange(from as int, i as int),
        decreases to - i,
    {
        s.push(chars[i]);
        i += 1;
    }
    s
}

/// Whether two texts are the same.
pub fn same_text(a: &str, b: &str) -> (same: bool)
    ensures
        same == (a@ == b@),
{
    let x = to_chars(a);
    let y = to_chars(b);
    if x.len() != y.len() {
        return false;
    }
    let mut i: usize = 0;
    while i < x.len()
        invariant
            i <= x.len(),
            x.len() == y.len(),
            x@ == a@,
            y@ == b@,
            forall|j: int| 0 <= j < i ==> x@[j] == y@[j],
        decreases x.len() - i,
    {
        if x[i] != y[i] {
            return false;
        }
        i += 1;
    }
    assert(a@ =~= b@);
    true
}

/// `s` without its leading white space.
pub open spec fn trim_start(s: Seq<char>) -> Seq<char>
    decreases s.len(),
{
    if s.len() > 0 && white_space(s.first()) {
        trim_start(s.drop_first())
    } else {
        s
    }
}

/// `s` without its trailing white space.
pub open spec fn trim_end(s: Seq<char>) -> Seq<char>
    decreases s.len(),
{
    if s.len() > 0 && white_space(s.last()) {
        trim_end(s.drop_last())
    } else {
        s
    }
}

/// `s` without the white space at both its ends.
pub open spec fn trimmed(s: Seq<char>) -> Seq<char> {
    trim_end(trim_start(s))
}

/// Removes the white space at both ends.
pub fn trim(s: &str) -> (core: String)
    ensures
        core@ == trimmed(s@),
{
    let chars = to_chars(s);
    let mut from: usize = 0;
    assert(chars@.subrange(0, chars@.len() as int) =~= s@);
    while from < chars.len() && is_white_space(chars[from])
        invariant
            from <= chars.len(),
            trim_start(s@) == trim_start(chars@.subrange(from as int, chars@.len() as int)),
        decreases chars.len() - from,
    {
        assert(chars@.subrange(from as int, chars@.len() as int).drop_first()
            =~= chars@.subrange(from + 1, chars@.len() as int));
        from += 1;
    }
    let ghost body = chars@.subrange(from as int, chars@.len() as int);
    assert(trim_start(s@) == body);
    let mut to: usize = chars.len();
    while to > from && is_white_space(chars[to - 1])
        invariant
            from <= to <= chars.len(),
            trim_end(body) == trim_end(chars@.subrange(from as int, to as int)),
        decreases to,
    {
        assert(chars@.subrange(from as int, to as int).drop_last()
            =~= chars@.subrange(from as int, to - 1));
        to -= 1;
    }
    from_chars(&chars, from, to)
}

/// Whether a text is white space throughout.
pub open spec fn all_white(s: Seq<char>) -> bool {
    forall|i: int| 0 <= i < s.len() ==> white_space(#[trigger] s[i])
}

/// What is left has no white space at its ends.
pub proof fn lemma_trimmed_ends(s: Seq<char>)
    ensures
        trimmed(s).len() > 0 ==> !white_space(trimmed(s).first()) && !white_space(
            trimmed(s).last(),
        ),
{
    lemma_trim_start_first(s);
    lemma_trim_end_last(trim_start(s));
}

/// What is left by `trim_start` begins with no white space.
proof fn lemma_trim_start_first(s: Seq<char>)
    ensures
        trim_start(s).len() > 0 ==> !white_space(trim_start(s).first()),
    decreases s.len(),
{
    if s.len() > 0 && white_space(s.first()) {
        lemma_trim_start_first(s.drop_first());
    }
}

/// What is left by `trim_end` begins as before and ends in no white space.
proof fn lemma_trim_end_last(s: Seq<char>)
    ensures
        trim_end(s).len() > 0 ==> !white_space(trim_end(s).last()) && trim_end(s).first()
            == s.first(),
    decreases s.len(),
{
    if s.len() > 0 && white_space(s.last()) {
        lemma_trim_end_last(s.drop_last());
    }
}

/// A text without white space at its ends is left as it is.
pub proof fn lemma_trimmed_same(s: Seq<char>)
    requires
        s.len() > 0 ==> !white_space(s.first()) && !white_space(s.last()),
    ensures
        trimmed(s) == s,
{
}

/// White space around a text is removed, and nothing else.
pub proof fn lemma_trimmed_core(before: Seq<char>, core: Seq<char>, after: Seq<char>)
    requires
        all_white(before),
        all_white(after),
        core.len() > 0 ==> !white_space(core.first()) && !white_space(core.last()),
    ensures
        trimmed(before + core + after) == core,
    decreases before.len() + after.len(),
{
    let s = before + core + after;
    if before.len() > 0 {
        assert(s.first() == before[0]);
        assert(s.drop_first() =~= before.drop_first() + core + after);
        assert(all_white(before.drop_first())) by {
            assert forall|i: int| 0 <= i < before.len() - 1 implies white_space(
                #[trigger] before.drop_first()[i],
            ) by {
                assert(before.drop_first()[i] == before[i + 1]);
            }
        }
        lemma_trimmed_core(before.drop_first(), core, after);
    } else if core.len() > 0 {
        assert(s.first() == core.first());
        assert(trim_start(s) == s);
        if after.len() > 0 {
            let less = core + after.drop_last();
            assert(s.last() == after.last());
            assert(s.drop_last() =~= less);
            assert(all_white(after.drop_last()));
            assert(Seq::<char>::empty() + core + after.drop_last() =~= less);
            lemma_trimmed_core(Seq::empty(), core, after.drop_last());
            assert(less.first() == core.first());
            assert(trim_start(less) == less);
        } else {
            assert(s =~= core);
        }
    } else if after.len() > 0 {
        assert(s =~= after);
        assert(s.first() == after[0]);
        assert(s.drop_first() =~= Seq::<char>::empty() + core + after.drop_first());
        assert(all_white(after.drop_first())) by {
            assert forall|i: int| 0 <= i < after.len() - 1 implies white_space(
                #[trigger] after.drop_first()[i],
            ) by {
                assert(after.drop_first()[i] == after[i + 1]);
            }
        }
        lemma_trimmed_core(Seq::empty(), core, after.drop_first());
    } else {
        assert(s =~= core);
    }
}

/// Where `c` first stands in `s`; the length of `s` where it does not.
pub open spec fn find_char(s: Seq<char>, c: char) -> nat
    decreases s.len(),
{
    if s.len() == 0 || s.first() == c {
        0
    } else {
        1 + find_char(s.drop_first(), c)
    }
}

/// `find_char` is the one place before which `c` does not stand and at which it does.
pub proof fn lemma_find_char(s: Seq<char>, c: char, at: nat)
    requires
        at <= s.len(),
        forall|j: int| 0 <= j < at ==> s[j] != c,
        at == s.len() || s[at as int] == c,
    ensures
        find_char(s, c) == at,
    decreases s.len(),
{
    if s.len() > 0 && s.first() != c {
        assert(at > 0);
        let rest = s.drop_first();
        assert forall|j: int| 0 <= j < at - 1 implies rest[j] != c by {
            assert(rest[j] == s[j + 1]);
        }
        lemma_find_char(rest, c, (at - 1) as nat);
    }
}

/// Where `find_char` finds `c` it stands, and nowhere before.
pub proof fn lemma_find_char_found(s: Seq<char>, c: char)
    ensures
        find_char(s, c) <= s.len(),
        forall|j: int| 0 <= j < find_char(s, c) ==> s[j] != c,
        find_char(s, c) < s.len() ==> s[find_char(s, c) as int] == c,
    decreases s.len(),
{
    if s.len() > 0 && s.first() != c {
        let rest = s.drop_first();
        lemma_find_char_found(rest, c);
        assert forall|j: int| 0 <= j < find_char(s, c) implies s[j] != c by {
            if j > 0 {
                assert(s[j] == rest[j - 1]);
            }
        }
    }
}

/// `line` without a carriage return at its end.
pub open spec fn without_return(line: Seq<char>) -> Seq<char> {
    if line.len() > 0 && line.last() == '\r' {
        line.drop_last()
    } else {
        line
    }
}

/// The lines of `s`: each ends in a line feed, which may follow a carriage return and
/// which the last line may lack.
pub open spec fn line_texts(s: Seq<char>) -> Seq<Seq<char>>
    decreases s.len(),
{
    let at = find_char(s, '\n');
    if s.len() == 0 {
        Seq::empty()
    } else if at < s.len() {
        seq![without_return(s.take(at as int))] + line_texts(s.skip(at as int + 1))
    } else {
        seq![s]
    }
}

/// Cuts a text into its lines.
pub fn lines(s: &str) -> (list: Vec<String>)
    ensures
        texts(list@) == line_texts(s@),
{
    let chars = to_chars(s);
    let mut list: Vec<String> = Vec::new();
    let mut start: usize = 0;
    let mut i: usize = 0;
    assert(chars@.skip(0) =~= s@);
    assert(texts(list@) =~= Seq::<Seq<char>>::empty());
    assert(line_texts(s@) =~= texts(list@) + line_texts(chars@.skip(0)));
    while i < chars.len()
        invariant
            start <= i <= chars.len(),
            forall|j: int| start <= j < i ==> chars@[j] != '\n',
            line_texts(s@) == texts(list@) + line_texts(chars@.skip(start as int)),
        decreases chars.len() - i,
    {
        if chars[i] == '\n' {
            let ghost rest = chars@.skip(start as int);
            proof {
                lemma_find_char(rest, '\n', (i - start) as nat);
                assert(rest.take(i - start) =~= chars@.subrange(start as int, i as int));
                assert(rest.skip(i - start + 1) =~= chars@.skip(i + 1));
            }
            let end: usize = if i > start && chars[i - 1] == '\r' {
                i - 1
            } else {
                i
            };
            let line = from_chars(&chars, start, end);
            assert(line@ =~= without_return(rest.take(i - start)));
            let ghost before = texts(list@);
            list.push(line);
            assert(texts(list@) =~= before + seq![line@]);
            assert(line_texts(rest) == seq![line@] + line_texts(chars@.skip(i + 1)));
            assert(before + (seq![line@] + line_texts(chars@.skip(i + 1)))
                =~= texts(list@) + line_texts(chars@.skip(i + 1)));
            start = i + 1;
        }
        i += 1;
    }
    let ghost rest = chars@.skip(start as int);
    if start < chars.len() {
        proof {
            assert forall|j: int| 0 <= j < rest.len() implies rest[j] != '\n' by {
                assert(rest[j] == chars@[start + j]);
            }
            lemma_find_char(rest, '\n', rest.len());
        }
        let line = from_chars(&chars, start, chars.len());
        assert(line@ =~= rest);
        let ghost before = texts(list@);
        list.push(line);
        assert(texts(list@) =~= before + seq![line@]);
    } else {
        assert(rest.len() == 0);
        assert(texts(list@) =~= texts(list@) + Seq::<Seq<char>>::empty());
    }
    list
}

/// What stands before the first `c`; all of `s` where there is none.
pub open spec fn before_first(s: Seq<char>, c: char) -> Seq<char> {
    s.take(find_char(s, c) as int)
}

/// What stands after the first `c`, where there is one.
pub open spec fn after_first(s: Seq<char>, c: char) -> Option<Seq<char>> {
    if find_char(s, c) < s.len() {
        Some(s.skip(find_char(s, c) as int + 1))
    } else {
        None
    }
}

/// What stands after the last `c`; all of `s` where there is none.
pub open spec fn after_last(s: Seq<char>, c: char) -> Seq<char>
    decreases s.len(),
{
    match after_first(s, c) {
        Some(rest) => after_last(rest, c),
        None => s,
    }
}

/// Where `c` first stands in `chars`; their number where it does not.
fn position(chars: &Vec<char>, c: char) -> (at: usize)
    ensures
        at == find_char(chars@, c),
        at <= chars.len(),
{
    let mut i: usize = 0;
    while i < chars.len() && chars[i] != c
        invariant
            i <= chars.len(),
            forall|j: int| 0 <= j < i ==> chars@[j] != c,
        decreases chars.len() - i,
    {
        i += 1;
    }
    proof {
        lemma_find_char(chars@, c, i as nat);
    }
    i
}

/// Cuts `s` at the first `c`: what stands before it, and what stands after it.
pub fn split_first(s: &str, c: char) -> (parts: (String, Option<String>))
    ensures
        parts.0@ == before_first(s@, c),
        match parts.1 {
            Some(rest) => after_first(s@, c) == Some(rest@),
            None => after_first(s@, c) is None,
        },
{
    let chars = to_chars(s);
    let at = position(&chars, c);
    let head = from_chars(&chars, 0, at);
    assert(head@ =~= before_first(s@, c));
    if at < chars.len() {
        let rest = from_chars(&chars, at + 1, chars.len());
        assert(rest@ =~= s@.skip(at + 1));
        (head, Some(rest))
    } else {
        (head, None)
    }
}

/// What stands after the last `c` in `s`.
pub fn last_part(s: &str, c: char) -> (part: String)
    ensures
        part@ == after_last(s@, c),
{
    let mut part = s.to_owned();
    loop
        invariant
            after_last(part@, c) == after_last(s@, c),
        ensures
            part@ == after_last(s@, c),
        decreases part@.len(),
    {
        let (_, rest) = split_first(part.as_str(), c);
        match rest {
            Some(rest) => {
                part = rest;
            },
            None => {
                break;
            },
        }
    }
    part
}

/// Whether `pattern` stands in `s` at `at`.
pub open spec fn stands_at(s: Seq<char>, pattern: Seq<char>, at: int) -> bool {
    0 <= at && at + pattern.len() <= s.len() && s.subrange(at, at + pattern.len()) == pattern
}

/// Whether `pattern` stands anywhere in `s`.
pub open spec fn has_text(s: Seq<char>, pattern: Seq<char>) -> bool {
    exists|at: int| stands_at(s, pattern, at)
}

/// Whether `pattern` stands in `chars` at `at`.
fn matches_at(chars: &Vec<char>, pattern: &Vec<char>, at: usize) -> (found: bool)
    requires
        at <= chars.len(),
    ensures
        found == stands_at(chars@, pattern@, at as int),
{
    if pattern.len() > chars.len() - at {
        return false;
    }
    let mut i: usize = 0;
    while i < pattern.len()
        invariant
            i <= pattern.len(),
            at + pattern.len() <= chars.len(),
            forall|j: int| 0 <= j < i ==> chars@[at + j] == pattern@[j],
        decreases pattern.len() - i,
    {
        if chars[at + i] != pattern[i] {
            assert(chars@.subrange(at as int, at + pattern@.len())[i as int] != pattern@[i as int]);
            return false;
        }
        i += 1;
    }
    assert(chars@.subrange(at as int, at + pattern@.len()) =~= pattern@);
    true
}

/// Whether `pattern` stands anywhere in `s`.
pub fn contains_text(s: &str, pattern: &str) -> (found: bool)
    ensures
        found == has_text(s@, pattern@),
{
    let chars = to_chars(s);
    let pattern_chars = to_chars(pattern);
    let mut at: usize = 0;
    loop
        invariant
            at <= chars.len(),
            chars@ == s@,
            pattern_chars@ == pattern@,
            forall|j: int| 0 <= j < at ==> !stands_at(s@, pattern@, j),
        decreases chars.len() - at,
    {
        if matches_at(&chars, &pattern_chars, at) {
            return true;
        }
        if at == chars.len() {
            assert forall|j: int| !stands_at(s@, pattern@, j) by {
                if 0 <= j <= at {
                } else {
                    assert(j < 0 || j > s@.len());
                }
            }
            return false;
        }
        at += 1;
    }
}

/// `s` with each `from` in it, taken from the left and without overlap, turned into `to`.
pub open spec fn replaced(s: Seq<char>, from: Seq<char>, to: Seq<char>) -> Seq<char>
    decreases s.len(),
{
    if from.len() == 0 || s.len() == 0 {
        s
    } else if stands_at(s, from, 0) {
        to + replaced(s.skip(from.len() as int), from, to)
    } else {
        seq![s.first()] + replaced(s.drop_first(), from, to)
    }
}

/// A text that lacks a character of `from` is left as it is.
pub proof fn lemma_replaced_same(s: Seq<char>, from: Seq<char>, to: Seq<char>, k: int)
    requires
        0 <= k < from.len(),
        forall|i: int| 0 <= i < s.len() ==> (#[trigger] s[i]) != from[k],
    ensures
        replaced(s, from, to) == s,
    decreases s.len(),
{
    if s.len() > 0 {
        if stands_at(s, from, 0) {
            assert(s.subrange(0, from.len() as int)[k] == s[k]);
        }
        let rest = s.drop_first();
        assert forall|i: int| 0 <= i < rest.len() implies (#[trigger] rest[i]) != from[k] by {
            assert(rest[i] == s[i + 1]);
        }
        lemma_replaced_same(rest, from, to, k);
        assert(seq![s.first()] + rest =~= s);
    }
}

/// Turns each `from` in `s` into `to`.
pub fn replace_text(s: &str, from: &str, to: &str) -> (out: String)
    requires
        from@.len() > 0,
    ensures
        out@ == replaced(s@, from@, to@),
{
    let chars = to_chars(s);
    let pattern = to_chars(from);
    let mut out = String::new();
    let mut i: usize = 0;
    assert(chars@.skip(0) =~= s@);
    assert(replaced(s@, from@, to@) =~= out@ + replaced(s@, from@, to@));
    while i < chars.len()
        invariant
            i <= chars.len(),
            pattern@ == from@,
            from@.len() > 0,
            replaced(s@, from@, to@) == out@ + replaced(chars@.skip(i as int), from@, to@),
        decreases chars.len() - i,
    {
        let ghost rest = chars@.skip(i as int);
        let ghost before = out@;
        assert(i + from@.len() <= chars@.len() ==> rest.subrange(0, from@.len() as int)
            =~= chars@.subrange(i as int, i + from@.len()));
        assert(stands_at(rest, from@, 0) == stands_at(chars@, from@, i as int));
        if matches_at(&chars, &pattern, i) {
            out.append(to);
            assert(rest.skip(from@.len() as int) =~= chars@.skip(i + from@.len()));
            let ghost tail = replaced(chars@.skip(i + from@.len()), from@, to@);
            assert(before + (to@ + tail) =~= out@ + tail);
            i += pattern.len();
        } else {
            out.push(chars[i]);
            assert(rest.drop_first() =~= chars@.skip(i + 1));
            let ghost tail = replaced(chars@.skip(i + 1), from@, to@);
            assert(before + (seq![rest.first()] + tail) =~= out@ + tail);
            i += 1;
        }
    }
    assert(chars@.skip(i as int) =~= Seq::<char>::empty());
    assert(out@ =~= out@ + Seq::<char>::empty());
    out
}

/// `s` without the characters in `dropped`.
pub open spec fn without_chars(s: Seq<char>, dropped: Seq<char>) -> Seq<char> {
    s.filter(|c: char| !dropped.contains(c))
}

/// Removes each character that stands in `dropped`.
pub fn remove_chars(s: &str, dropped: &str) -> (out: String)
    ensures
        out@ == without_chars(s@, dropped@),
{
    let chars = to_chars(s);
    let gone = to_chars(dropped);
    let mut out = String::new();
    let mut i: usize = 0;
    let ghost keep = |c: char| !dropped@.contains(c);
    assert(s@.take(0).filter(keep) =~= Seq::<char>::empty()) by {
        reveal(Seq::filter);
    }
    while i < chars.len()
        invariant
            i <= chars.len(),
            chars@ == s@,
            gone@ == dropped@,
            keep == (|c: char| !dropped@.contains(c)),
            out@ == s@.take(i as int).filter(keep),
        decreases chars.len() - i,
    {
        let c = chars[i];
        let at = position(&gone, c);
        proof {
            lemma_filter_step(s@, i as int, keep);
            lemma_find_char_contains(gone@, c);
        }
        if at == gone.len() {
            out.push(c);
        }
        i += 1;
    }
    assert(s@.take(i as int) =~= s@);
    out
}

/// A character stands in a text exactly where `find_char` finds it.
proof fn lemma_find_char_contains(s: Seq<char>, c: char)
    ensures
        s.contains(c) <==> find_char(s, c) < s.len(),
{
    lemma_find_char_found(s, c);
    if s.contains(c) {
        let k = choose|k: int| 0 <= k < s.len() && s[k] == c;
        assert(find_char(s, c) <= k);
    }
}

/// Filtering one more character.
proof fn lemma_filter_step(s: Seq<char>, i: int, keep: spec_fn(char) -> bool)
    requires
        0 <= i < s.len(),
    ensures
        s.take(i + 1).filter(keep) == if keep(s[i]) {
            s.take(i).filter(keep).push(s[i])
        } else {
            s.take(i).filter(keep)
        },
{
    reveal(Seq::filter);
    assert(s.take(i + 1).drop_last() =~= s.take(i));
}

/// `s` without any white space.
pub open spec fn without_white_space(s: Seq<char>) -> Seq<char> {
    s.filter(|c: char| !white_space(c))
}

/// What is left when all white space is removed holds each other character of the text, and does
/// not depend on the white space around it.
pub proof fn lemma_without_white_space(s: Seq<char>)
    ensures
        without_white_space(trimmed(s)) == without_white_space(s),
        forall|c: char| #[trigger]
            s.contains(c) && !white_space(c) ==> without_white_space(s).contains(c),
{
    lemma_without_leading(s);
    lemma_without_trailing(trim_start(s));
    let keep = |c: char| !white_space(c);
    assert forall|c: char| #[trigger] s.contains(c) && !white_space(
        c,
    ) implies without_white_space(s).contains(c) by {
        let i = choose|i: int| 0 <= i < s.len() && s[i] == c;
        s.lemma_filter_contains(keep, i);
    }
}

/// Leading white space is removed along with all other.
proof fn lemma_without_leading(s: Seq<char>)
    ensures
        without_white_space(trim_start(s)) == without_white_space(s),
    decreases s.len(),
{
    if s.len() > 0 && white_space(s.first()) {
        let keep = |c: char| !white_space(c);
        let first = seq![s.first()];
        lemma_without_leading(s.drop_first());
        assert(s =~= first + s.drop_first());
        Seq::filter_distributes_over_add(first, s.drop_first(), keep);
        assert(first.filter(keep) =~= Seq::<char>::empty()) by {
            lemma_filter_step(first, 0, keep);
            reveal(Seq::filter);
            assert(first.take(1) =~= first);
            assert(first.take(0) =~= Seq::<char>::empty());
        }
        assert(s.filter(keep) =~= s.drop_first().filter(keep));
    }
}

/// Trailing white space is removed along with all other.
proof fn lemma_without_trailing(s: Seq<char>)
    ensures
        without_white_space(trim_end(s)) == without_white_space(s),
    decreases s.len(),
{
    if s.len() > 0 && white_space(s.last()) {
        reveal(Seq::filter);
        lemma_without_trailing(s.drop_last());
    }
}

/// Removes all white space.
pub fn remove_white_space(s: &str) -> (out: String)
    ensures
        out@ == without_white_space(s@),
{
    let chars = to_chars(s);
    let mut out = String::new();
    let mut i: usize = 0;
    let ghost keep = |c: char| !white_space(c);
    assert(s@.take(0).filter(keep) =~= Seq::<char>::empty()) by {
        reveal(Seq::filter);
    }
    while i < chars.len()
        invariant
            i <= chars.len(),
            chars@ == s@,
            keep == (|c: char| !white_space(c)),
            out@ == s@.take(i as int).filter(keep),
        decreases chars.len() - i,
    {
        proof {
            lemma_filter_step(s@, i as int, keep);
        }
        if !is_white_space(chars[i]) {
            out.push(chars[i]);
        }
        i += 1;
    }
    assert(s@.take(i as int) =~= s@);
    out
}

/// The first `n` characters of `s`, or all of them where there are fewer.
pub open spec fn first_chars(s: Seq<char>, n: nat) -> Seq<char> {
    if s.len() <= n {
        s
    } else {
        s.take(n as int)
    }
}

/// Keeps the first `n` characters.
pub fn take_chars(s: &str, n: usize) -> (out: String)
    ensures
        out@ == first_chars(s@, n as nat),
{
    let chars = to_chars(s);
    let to: usize = if chars.len() <= n {
        chars.len()
    } else {
        n
    };
    let out = from_chars(&chars, 0, to);
    assert(out@ =~= first_chars(s@, n as nat));
    out
}

/// The `parts`, with `separator` between each two.
pub open spec fn joined(parts: Seq<Seq<char>>, separator: Seq<char>) -> Seq<char>
    decreases parts.len(),
{
    if parts.len() == 0 {
        Seq::empty()
    } else if parts.len() == 1 {
        parts[0]
    } else {
        joined(parts.drop_last(), separator) + separator + parts.last()
    }
}

/// Joins `parts` with `separator`.
pub fn join(parts: &Vec<String>, separator: &str) -> (out: String)
    ensures
        out@ == joined(texts(parts@), separator@),
{
    let mut out = String::new();
    let mut i: usize = 0;
    let ghost all = texts(parts@);
    while i < parts.len()
        invariant
            i <= parts.len(),
            all == texts(parts@),
            out@ == joined(all.take(i as int), separator@),
        decreases parts.len() - i,
    {
        let ghost before = out@;
        if i > 0 {
            out.append(separator);
        }
        out.append(parts[i].as_str());
        assert(all.take(i + 1).drop_last() =~= all.take(i as int));
        assert(out@ =~= joined(all.take(i + 1), separator@));
        i += 1;
    }
    assert(all.take(i as int) =~= all);
    out
}

/// The digit for `n`.
pub open spec fn digit(n: nat) -> char {
    (('0' as int) + n) as char
}

/// `n` written in decimal, without leading zeros.
pub open spec fn decimal(n: nat) -> Seq<char>
    decreases n,
{
    if n < 10 {
        seq![digit(n)]
    } else {
        decimal(n / 10).push(digit(n % 10))
    }
}

/// Writes `n` in decimal.
pub fn to_decimal(n: u128) -> (out: String)
    ensures
        out@ == decimal(n as nat),
    decreases n,
{
    if n < 10 {
        let mut out = String::new();
        out.push((48u8 + n as u8) as char);
        out
    } else {
        let mut out = to_decimal(n / 10);
        out.push((48u8 + (n % 10) as u8) as char);
        out
    }
}

/// `s` followed by as many spaces as bring it to `width` characters.
pub open spec fn padded(s: Seq<char>, width: nat) -> Seq<char> {
    if s.len() >= width {
        s
    } else {
        s + Seq::new((width - s.len()) as nat, |i: int| ' ')
    }
}

/// Pads `s` with spaces on the right to `width` characters.
pub fn pad_right(s: &str, width: usize) -> (out: String)
    ensures
        out@ == padded(s@, width as nat),
{
    let mut out = s.to_owned();
    let mut len: usize = s.unicode_len();
    while len < width
        invariant
            len == out@.len(),
            s@.len() <= len,
            len <= width || len == s@.len(),
            out@ == s@ + Seq::new((len - s@.len()) as nat, |i: int| ' '),
        decreases width - len,
    {
        out.push(' ');
        len += 1;
    }
    assert(out@ =~= padded(s@, width as nat));
    out
}

/// `n` copies of `c`.
pub open spec fn repeated(c: char, n: nat) -> Seq<char> {
    Seq::new(n, |i: int| c)
}

/// Writes `c` `n` times.
pub fn repeat_char(c: char, n: usize) -> (out: String)
    ensures
        out@ == repeated(c, n as nat),
{
    let mut out = String::new();
    let mut i: usize = 0;
    while i < n
        invariant
            i <= n,
            out@ =~= repeated(c, i as nat),
        decreases n - i,
    {
        out.push(c);
        i += 1;
    }
    out
}

} // verus!
