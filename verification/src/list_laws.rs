//! What the final lists and the report hold, in terms of the nodes and the sources.
use vstd::prelude::*;
use vstd::utf8::{encode_utf8, is_scalar};

use crate::encoding::{lower_cased, percent_decoded};
use crate::finalizer::{country_code, entry_line, entry_lines, entry_views, fastest_first};
use crate::finalizer::{known_provider, law_short_list_is_full, law_short_list_keeps_order};
use crate::finalizer::{law_short_list_limits, provider_of, share, short_list, short_name};
use crate::finalizer::{short_places, speed_keys, symbol_code, symbols, without_suffixes};
use crate::finalizer::{Entry, EntryView};
use crate::ledger::sources;
use crate::order::ranking;
use crate::report::{by_line_count, first_column, line_counts, longest, mebibytes, rounded};
use crate::report::{same_rows, table, total_lines, total_unique, Row};
use crate::speed::law_total_order;
use crate::text::{decimal, lemma_replaced_same, padded, repeated, replaced};
use crate::text::{trimmed, without_chars};
use crate::text_laws::{law_cut_at_first, law_has_text, law_ranking, law_replaced};

verus! {

/// An entry says what its parts say.
pub proof fn law_entry_says(entries: Seq<Entry>, i: int)
    requires
        0 <= i < entries.len(),
    ensures
        entry_views(entries).len() == entries.len(),
        entry_views(entries)[i].line == entries[i].line@,
        entry_views(entries)[i].speed == entries[i].speed,
        entry_views(entries)[i].provider == entries[i].provider@,
        entry_lines(entry_views(entries)).len() == entries.len(),
        entry_lines(entry_views(entries))[i] == entries[i].line@,
{
}

/// The full list holds each entry once, a greater speed before a lesser one, and entries of the
/// same speed in the order in which they came.
pub proof fn law_full_list(entries: Seq<EntryView>)
    ensures
        fastest_first(entries).len() == entries.len(),
        exists|order: Seq<int>|
            order.len() == entries.len() && (forall|i: int|
                0 <= i < entries.len() ==> 0 <= #[trigger] order[i] < entries.len()
                    && fastest_first(entries)[i] == entries[order[i]]) && (forall|k: int|
                0 <= k < entries.len() ==> #[trigger] order.contains(k)) && (forall|i: int, j: int|
                0 <= i < j < entries.len() ==> ({
                    let a = #[trigger] order[i];
                    let b = #[trigger] order[j];
                    &&& !entries[b].speed.exceeds(entries[a].speed)
                    &&& entries[a].speed == entries[b].speed ==> a < b
                })),
{
    let keys = speed_keys(entries);
    let order = ranking_of(entries);
    law_ranking(keys);
    assert forall|i: int, j: int| 0 <= i < j < entries.len() implies ({
        let a = #[trigger] order[i];
        let b = #[trigger] order[j];
        &&& !entries[b].speed.exceeds(entries[a].speed)
        &&& entries[a].speed == entries[b].speed ==> a < b
    }) by {
        let a = order[i];
        let b = order[j];
        law_total_order(entries[b].speed, entries[a].speed);
        assert(keys[a] == entries[a].speed.total_key());
        assert(keys[b] == entries[b].speed.total_key());
    }
    assert forall|i: int| 0 <= i < entries.len() implies 0 <= #[trigger] order[i] < entries.len()
        && fastest_first(entries)[i] == entries[order[i]] by {}
}

/// The order of the full list.
spec fn ranking_of(entries: Seq<EntryView>) -> Seq<int> {
    ranking(speed_keys(entries))
}

/// Whether an entry is of a provider.
pub open spec fn of_provider(provider: Seq<char>) -> spec_fn(EntryView) -> bool {
    |entry: EntryView| entry.provider == provider
}

/// A share is the number of entries of a provider.
proof fn lemma_share(entries: Seq<EntryView>, provider: Seq<char>)
    ensures
        share(entries, provider) == entries.filter(of_provider(provider)).len(),
    decreases entries.len(),
{
    reveal(Seq::filter);
    if entries.len() > 0 {
        lemma_share(entries.drop_last(), provider);
    }
}

/// The short list has at most 600 entries, and at most 50 of any provider, whichever it is.
pub proof fn law_short_list_sizes(entries: Seq<EntryView>, provider: Seq<char>)
    ensures
        short_list(entries).len() <= 600,
        short_list(entries).filter(of_provider(provider)).len() <= 50,
{
    law_short_list_limits(entries, provider);
    lemma_share(short_list(entries), provider);
}

/// An entry joins the short list of those above it exactly where that has less than 600 entries,
/// and less than 50 of the same provider.
pub proof fn law_short_list_room(entries: Seq<EntryView>, k: int)
    requires
        0 <= k < entries.len(),
    ensures
        ({
            let before = short_list(entries.take(k));
            let after = short_list(entries.take(k + 1));
            if before.len() < 600 && before.filter(of_provider(entries[k].provider)).len() < 50 {
                after == before.push(entries[k])
            } else {
                after == before
            }
        }),
        short_list(Seq::empty()) == Seq::<EntryView>::empty(),
{
    let above = entries.take(k);
    assert(entries.take(k + 1).drop_last() =~= above);
    assert(entries.take(k + 1).last() == entries[k]);
    lemma_share(short_list(above), entries[k].provider);
}

/// The places of a beginning of the list are those below its end.
proof fn lemma_places_of_beginning(entries: Seq<EntryView>, k: int)
    requires
        0 <= k <= entries.len(),
    ensures
        short_places(entries.take(k)) == short_places(entries).filter(|j: int| j < k),
    decreases entries.len(),
{
    let below = |j: int| j < k;
    let all = short_places(entries);
    law_short_list_keeps_order(entries);
    if k == entries.len() {
        assert(entries.take(k) =~= entries);
        lemma_filter_all(all, below);
    } else {
        let front = entries.drop_last();
        let before = short_places(front);
        lemma_places_of_beginning(front, k);
        assert(front.take(k) =~= entries.take(k));
        reveal(Seq::filter);
        if all != before {
            assert(all.drop_last() =~= before);
            assert(all.last() == entries.len() - 1);
        }
    }
}

/// A filter that all pass leaves a list as it is.
proof fn lemma_filter_all(list: Seq<int>, keep: spec_fn(int) -> bool)
    requires
        forall|i: int| 0 <= i < list.len() ==> keep(#[trigger] list[i]),
    ensures
        list.filter(keep) == list,
    decreases list.len(),
{
    reveal(Seq::filter);
    if list.len() > 0 {
        let front = list.drop_last();
        assert forall|i: int| 0 <= i < front.len() implies keep(#[trigger] front[i]) by {
            assert(front[i] == list[i]);
        }
        lemma_filter_all(front, keep);
        assert(keep(list[list.len() - 1]));
        assert(front.push(list.last()) =~= list);
    } else {
        assert(list.filter(keep) =~= list);
    }
}

/// The places of a provider below a place are as many as its entries there.
proof fn lemma_places_of_provider(
    entries: Seq<EntryView>,
    places: Seq<int>,
    k: int,
    provider: Seq<char>,
)
    requires
        forall|i: int| 0 <= i < places.len() ==> 0 <= #[trigger] places[i] < entries.len(),
    ensures
        ({
            let below = places.filter(|j: int| j < k);
            let listed = Seq::new(below.len(), |i: int| entries[below[i]]);
            listed.filter(of_provider(provider)).len() == places.filter(
                |j: int| j < k && entries[j].provider == provider,
            ).len()
        }),
    decreases places.len(),
{
    let keep = |j: int| j < k;
    let both = |j: int| j < k && entries[j].provider == provider;
    let below = places.filter(keep);
    let listed = Seq::new(below.len(), |i: int| entries[below[i]]);
    reveal(Seq::filter);
    if places.len() > 0 {
        let front = places.drop_last();
        assert forall|i: int| 0 <= i < front.len() implies 0 <= #[trigger] front[i]
            < entries.len() by {
            assert(front[i] == places[i]);
        }
        lemma_places_of_provider(entries, front, k, provider);
        let less = front.filter(keep);
        let shorter = Seq::new(less.len(), |i: int| entries[less[i]]);
        if keep(places.last()) {
            assert(below =~= less.push(places.last()));
            assert(listed.drop_last() =~= shorter);
            assert(listed.last() == entries[places.last()]);
        } else {
            assert(listed =~= shorter);
        }
    } else {
        assert(listed =~= Seq::empty());
    }
}

/// The short list holds entries of the full list at rising places, and leaves one out only where
/// 600 entries, or 50 of the same provider, stand at places above it.
pub proof fn law_short_list_leaves_out(entries: Seq<EntryView>)
    ensures
        exists|places: Seq<int>| #[trigger]
            places.len() == short_list(entries).len() && (forall|i: int|
                0 <= i < places.len() ==> 0 <= #[trigger] places[i] < entries.len() && short_list(
                    entries,
                )[i] == entries[places[i]]) && (forall|i: int, j: int|
                0 <= i < j < places.len() ==> #[trigger] places[i] < #[trigger] places[j]) && (
            forall|k: int|
                0 <= k < entries.len() && !(#[trigger] places.contains(k)) ==> places.filter(
                    |j: int| j < k,
                ).len() == 600 || places.filter(
                    |j: int| j < k && entries[j].provider == entries[k].provider,
                ).len() == 50),
{
    let places = short_places(entries);
    law_short_list_keeps_order(entries);
    assert forall|k: int| 0 <= k < entries.len() && !(#[trigger] places.contains(
        k,
    )) implies places.filter(|j: int| j < k).len() == 600 || places.filter(
        |j: int| j < k && entries[j].provider == entries[k].provider,
    ).len() == 50 by {
        let above = entries.take(k);
        let below = places.filter(|j: int| j < k);
        let provider = entries[k].provider;
        law_short_list_is_full(entries, k);
        lemma_places_of_beginning(entries, k);
        law_short_list_keeps_order(above);
        lemma_share(short_list(above), provider);
        lemma_places_of_provider(entries, places, k, provider);
        assert(short_list(above) =~= Seq::new(below.len(), |i: int| entries[below[i]])) by {
            assert forall|i: int| 0 <= i < below.len() implies short_list(above)[i]
                == entries[below[i]] by {
                assert(short_places(above)[i] == below[i]);
                assert(above[below[i]] == entries[below[i]]);
            }
        }
    }
}

/// Whether a word stands in a text.
pub open spec fn mentions(text: Seq<char>, word: Seq<char>) -> bool {
    exists|a: Seq<char>, b: Seq<char>| #[trigger] (a + word + b) == text
}

/// A provider is known by the first of ten words that its name mentions, and not known where it
/// mentions none.
pub proof fn law_known_provider(lower: Seq<char>)
    ensures
        known_provider(lower) == if mentions(lower, "digitalocean"@) {
            Some("DigitalOcean"@)
        } else if mentions(lower, "amazon"@) {
            Some("AWS"@)
        } else if mentions(lower, "aws"@) {
            Some("AWS"@)
        } else if mentions(lower, "google"@) {
            Some("Google Cloud"@)
        } else if mentions(lower, "microsoft"@) {
            Some("Azure"@)
        } else if mentions(lower, "hetzner"@) {
            Some("Hetzner"@)
        } else if mentions(lower, "ovh"@) {
            Some("OVH"@)
        } else if mentions(lower, "linode"@) {
            Some("Linode"@)
        } else if mentions(lower, "vultr"@) {
            Some("Vultr"@)
        } else if mentions(lower, "oracle"@) {
            Some("Oracle Cloud"@)
        } else {
            None
        },
{
    law_has_text(lower, "digitalocean"@);
    law_has_text(lower, "amazon"@);
    law_has_text(lower, "aws"@);
    law_has_text(lower, "google"@);
    law_has_text(lower, "microsoft"@);
    law_has_text(lower, "hetzner"@);
    law_has_text(lower, "ovh"@);
    law_has_text(lower, "linode"@);
    law_has_text(lower, "vultr"@);
    law_has_text(lower, "oracle"@);
}

/// A provider that is known goes by its usual name, any other by its own without suffixes; what is
/// not known of an address has a name of its own.
pub proof fn law_names(name: Seq<char>, lower: Seq<char>, code: Seq<char>)
    ensures
        short_name(name, lower) == match known_provider(lower) {
            Some(usual) => usual,
            None => without_suffixes(name),
        },
        provider_of(None) == "Unknown"@,
        provider_of(Some(name)) == match known_provider(lower_cased(name)) {
            Some(usual) => usual,
            None => without_suffixes(name),
        },
        country_code(None) == "XX"@,
        country_code(Some(code)) == code,
{
}

/// Whether a text holds neither punctuation nor a letter that a company suffix begins with.
pub open spec fn ordinary(s: Seq<char>) -> bool {
    forall|i: int|
        0 <= i < s.len() ==> (#[trigger] s[i]) != '.' && s[i] != ',' && s[i] != '(' && s[i] != ')'
            && s[i] != 'L' && s[i] != 'I' && s[i] != 'P' && s[i] != 'C'
}

/// The company suffixes.
pub open spec fn suffix(word: Seq<char>) -> bool {
    word == "LLC"@ || word == "Inc"@ || word == "Ltd"@ || word == "PJSC"@ || word
        == "Corporation"@
}

/// Nothing is dropped from a text that holds nothing to be dropped.
proof fn lemma_nothing_dropped(s: Seq<char>, dropped: Seq<char>)
    requires
        forall|i: int| 0 <= i < s.len() ==> !dropped.contains(#[trigger] s[i]),
    ensures
        without_chars(s, dropped) == s,
    decreases s.len(),
{
    reveal(Seq::filter);
    if s.len() > 0 {
        let front = s.drop_last();
        assert forall|i: int| 0 <= i < front.len() implies !dropped.contains(
            #[trigger] front[i],
        ) by {
            assert(front[i] == s[i]);
        }
        lemma_nothing_dropped(front, dropped);
        assert(!dropped.contains(s[s.len() - 1]));
        assert(front.push(s.last()) =~= s);
    } else {
        assert(without_chars(s, dropped) =~= s);
    }
}

/// A suffix that stands once is removed.
proof fn lemma_suffix_removed(a: Seq<char>, word: Seq<char>, b: Seq<char>)
    requires
        word.len() > 0,
        forall|i: int| 0 <= i < a.len() ==> (#[trigger] a[i]) != word[0],
        forall|i: int| 0 <= i < b.len() ==> (#[trigger] b[i]) != word[0],
    ensures
        replaced(a + word + b, word, ""@) == a + b,
{
    reveal_strlit("");
    let s = a + word + b;
    assert forall|k: int| 0 <= k < a.len() implies #[trigger] s.subrange(k, k + word.len())
        != word by {
        assert(s.subrange(k, k + word.len())[0] == a[k]);
    }
    law_replaced(a, word, b, ""@);
    lemma_replaced_same(b, word, ""@, 0);
    assert(a + ""@ + b =~= a + b);
}

/// Whether a character stands nowhere in a text.
spec fn lacks(s: Seq<char>, c: char) -> bool {
    forall|i: int| 0 <= i < s.len() ==> (#[trigger] s[i]) != c
}

/// A text in three parts lacks what they lack.
proof fn lemma_parts(a: Seq<char>, word: Seq<char>, b: Seq<char>, c: char)
    requires
        lacks(a, c),
        lacks(word, c),
        lacks(b, c),
    ensures
        lacks(a + word + b, c),
        lacks(a + b, c),
{
    let s = a + word + b;
    assert forall|i: int| 0 <= i < s.len() implies (#[trigger] s[i]) != c by {
        if i < a.len() {
            assert(s[i] == a[i]);
        } else if i < a.len() + word.len() {
            assert(s[i] == word[i - a.len()]);
        } else {
            assert(s[i] == b[i - a.len() - word.len()]);
        }
    }
    let t = a + b;
    assert forall|i: int| 0 <= i < t.len() implies (#[trigger] t[i]) != c by {
        if i < a.len() {
            assert(t[i] == a[i]);
        } else {
            assert(t[i] == b[i - a.len()]);
        }
    }
}

/// A text without the suffixes, one after the other.
pub open spec fn cut(s: Seq<char>) -> Seq<char> {
    let a = replaced(s, "LLC"@, ""@);
    let b = replaced(a, "Inc"@, ""@);
    let c = replaced(b, "Ltd"@, ""@);
    let d = replaced(c, "PJSC"@, ""@);
    replaced(d, "Corporation"@, ""@)
}

/// A text without the letters that suffixes begin with has no suffix.
proof fn lemma_no_suffix(s: Seq<char>)
    requires
        lacks(s, 'L'),
        lacks(s, 'I'),
        lacks(s, 'P'),
        lacks(s, 'C'),
    ensures
        cut(s) == s,
        replaced(s, "Inc"@, ""@) == s,
        replaced(s, "Ltd"@, ""@) == s,
        replaced(s, "PJSC"@, ""@) == s,
        replaced(s, "Corporation"@, ""@) == s,
{
    reveal_strlit("LLC");
    reveal_strlit("Inc");
    reveal_strlit("Ltd");
    reveal_strlit("PJSC");
    reveal_strlit("Corporation");
    lemma_replaced_same(s, "LLC"@, ""@, 0);
    lemma_replaced_same(s, "Inc"@, ""@, 0);
    lemma_replaced_same(s, "Ltd"@, ""@, 0);
    lemma_replaced_same(s, "PJSC"@, ""@, 0);
    lemma_replaced_same(s, "Corporation"@, ""@, 0);
}

/// Two texts around a word have no suffix of their own.
proof fn lemma_around(a: Seq<char>, b: Seq<char>)
    requires
        ordinary(a),
        ordinary(b),
    ensures
        lacks(a, 'L') && lacks(a, 'I') && lacks(a, 'P') && lacks(a, 'C'),
        lacks(b, 'L') && lacks(b, 'I') && lacks(b, 'P') && lacks(b, 'C'),
        replaced(a + b, "Inc"@, ""@) == a + b,
        replaced(a + b, "Ltd"@, ""@) == a + b,
        replaced(a + b, "PJSC"@, ""@) == a + b,
        replaced(a + b, "Corporation"@, ""@) == a + b,
{
    let none = Seq::<char>::empty();
    lemma_parts(a, none, b, 'L');
    lemma_parts(a, none, b, 'I');
    lemma_parts(a, none, b, 'P');
    lemma_parts(a, none, b, 'C');
    lemma_no_suffix(a + b);
}

/// The suffix `LLC` is cut out.
proof fn lemma_cut_llc(a: Seq<char>, b: Seq<char>)
    requires
        ordinary(a),
        ordinary(b),
    ensures
        cut(a + "LLC"@ + b) == a + b,
{
    lemma_around(a, b);
    reveal_strlit("LLC");
    lemma_suffix_removed(a, "LLC"@, b);
}

/// The suffix `Inc` is cut out.
proof fn lemma_cut_inc(a: Seq<char>, b: Seq<char>)
    requires
        ordinary(a),
        ordinary(b),
    ensures
        cut(a + "Inc"@ + b) == a + b,
{
    lemma_around(a, b);
    reveal_strlit("Inc");
    reveal_strlit("LLC");
    lemma_parts(a, "Inc"@, b, 'L');
    lemma_replaced_same(a + "Inc"@ + b, "LLC"@, ""@, 0);
    lemma_suffix_removed(a, "Inc"@, b);
}

/// The suffix `Ltd` is cut out.
proof fn lemma_cut_ltd(a: Seq<char>, b: Seq<char>)
    requires
        ordinary(a),
        ordinary(b),
    ensures
        cut(a + "Ltd"@ + b) == a + b,
{
    lemma_around(a, b);
    reveal_strlit("Ltd");
    reveal_strlit("LLC");
    reveal_strlit("Inc");
    lemma_parts(a, "Ltd"@, b, 'C');
    lemma_parts(a, "Ltd"@, b, 'I');
    lemma_replaced_same(a + "Ltd"@ + b, "LLC"@, ""@, 2);
    lemma_replaced_same(a + "Ltd"@ + b, "Inc"@, ""@, 0);
    lemma_suffix_removed(a, "Ltd"@, b);
}

/// The suffix `PJSC` is cut out.
proof fn lemma_cut_pjsc(a: Seq<char>, b: Seq<char>)
    requires
        ordinary(a),
        ordinary(b),
    ensures
        cut(a + "PJSC"@ + b) == a + b,
{
    lemma_around(a, b);
    reveal_strlit("PJSC");
    reveal_strlit("LLC");
    reveal_strlit("Inc");
    reveal_strlit("Ltd");
    lemma_parts(a, "PJSC"@, b, 'L');
    lemma_parts(a, "PJSC"@, b, 'I');
    lemma_replaced_same(a + "PJSC"@ + b, "LLC"@, ""@, 0);
    lemma_replaced_same(a + "PJSC"@ + b, "Inc"@, ""@, 0);
    lemma_replaced_same(a + "PJSC"@ + b, "Ltd"@, ""@, 0);
    lemma_suffix_removed(a, "PJSC"@, b);
}

/// The suffix `Corporation` is cut out.
proof fn lemma_cut_corporation(a: Seq<char>, b: Seq<char>)
    requires
        ordinary(a),
        ordinary(b),
    ensures
        cut(a + "Corporation"@ + b) == a + b,
{
    lemma_around(a, b);
    reveal_strlit("Corporation");
    reveal_strlit("LLC");
    reveal_strlit("Inc");
    reveal_strlit("Ltd");
    reveal_strlit("PJSC");
    lemma_parts(a, "Corporation"@, b, 'L');
    lemma_parts(a, "Corporation"@, b, 'I');
    lemma_parts(a, "Corporation"@, b, 'P');
    lemma_replaced_same(a + "Corporation"@ + b, "LLC"@, ""@, 0);
    lemma_replaced_same(a + "Corporation"@ + b, "Inc"@, ""@, 0);
    lemma_replaced_same(a + "Corporation"@ + b, "Ltd"@, ""@, 0);
    lemma_replaced_same(a + "Corporation"@ + b, "PJSC"@, ""@, 0);
    lemma_suffix_removed(a, "Corporation"@, b);
}

/// No punctuation is dropped from a word among ordinary texts.
proof fn lemma_no_punctuation(a: Seq<char>, word: Seq<char>, b: Seq<char>)
    requires
        ordinary(a),
        ordinary(b),
        suffix(word),
    ensures
        without_chars(a + word + b, ".,()"@) == a + word + b,
        without_chars(a, ".,()"@) == a,
{
    reveal_strlit("LLC");
    reveal_strlit("Inc");
    reveal_strlit("Ltd");
    reveal_strlit("PJSC");
    reveal_strlit("Corporation");
    reveal_strlit(".,()");
    let s = a + word + b;
    lemma_parts(a, word, b, '.');
    lemma_parts(a, word, b, ',');
    lemma_parts(a, word, b, '(');
    lemma_parts(a, word, b, ')');
    assert forall|i: int| 0 <= i < s.len() implies !".,()"@.contains(#[trigger] s[i]) by {}
    assert forall|i: int| 0 <= i < a.len() implies !".,()"@.contains(#[trigger] a[i]) by {}
    lemma_nothing_dropped(s, ".,()"@);
    lemma_nothing_dropped(a, ".,()"@);
}

/// A company suffix is removed wherever it stands, and white space at the ends with it; a name
/// without any keeps all else. The punctuation of a name is removed first, then each suffix in
/// turn.
pub proof fn law_suffixes(a: Seq<char>, word: Seq<char>, b: Seq<char>, raw: Seq<char>)
    requires
        ordinary(a),
        ordinary(b),
        suffix(word),
    ensures
        without_suffixes(a + word + b) == trimmed(a + b),
        without_suffixes(a) == trimmed(a),
        without_suffixes(raw) == without_suffixes(without_chars(raw, ".,()"@)),
        without_suffixes(raw) == trimmed(cut(without_chars(raw, ".,()"@))),
{
    lemma_no_punctuation(a, word, b);
    lemma_around(a, b);
    lemma_no_suffix(a);
    lemma_cut_llc(a, b);
    lemma_cut_inc(a, b);
    lemma_cut_ltd(a, b);
    lemma_cut_pjsc(a, b);
    lemma_cut_corporation(a, b);
    let plain = without_chars(raw, ".,()"@);
    assert forall|i: int| 0 <= i < plain.len() implies !".,()"@.contains(#[trigger] plain[i]) by {
        let keep = |c: char| !".,()"@.contains(c);
        broadcast use vstd::seq_lib::group_filter_ensures;

        assert(keep(raw.filter(keep)[i]));
    }
    lemma_nothing_dropped(plain, ".,()"@);
}

/// Each letter has its symbol, whatever stands beside it: the character as far above the symbol
/// for `A` as the letter is above `A`, where there is such a character.
pub proof fn law_symbols(a: Seq<char>, c: char, b: Seq<char>)
    ensures
        symbols(a + b) == symbols(a) + symbols(b),
        symbols(seq![c]) == if is_scalar((c as u32 + 0x1f1e6 - 65) as u32) {
            seq![((c as u32 + 0x1f1e6 - 65) as u32) as char]
        } else {
            Seq::empty()
        },
    decreases b.len(),
{
    let one = seq![c];
    assert(one.drop_last() =~= Seq::empty());
    assert(symbols(Seq::empty()) =~= Seq::empty());
    assert(symbols(one) =~= if is_scalar(symbol_code(c)) {
        seq![symbol_code(c) as char]
    } else {
        Seq::empty()
    });
    if b.len() > 0 {
        law_symbols(a, c, b.drop_last());
        assert((a + b).drop_last() =~= a + b.drop_last());
        assert((a + b).last() == b.last());
        assert(symbols(a + b) =~= symbols(a) + symbols(b));
    } else {
        assert(a + b =~= a);
        assert(symbols(a + b) =~= symbols(a) + symbols(b));
    }
}

/// A node whose country and provider are known is named by flag, speed and provider; any other
/// keeps its name, decoded, without brackets and bars, trimmed and cut to thirty characters.
pub proof fn law_entry_line(
    base: Seq<char>,
    name: Seq<char>,
    speed: Seq<char>,
    country: Seq<char>,
    flag: Seq<char>,
    provider: Seq<char>,
)
    requires
        forall|i: int| 0 <= i < base.len() ==> (#[trigger] base[i]) != '#',
    ensures
        ({
            let named = base + seq!['#'] + name;
            let decoded = match percent_decoded(name) {
                Some(decoded) => decoded,
                None => Seq::empty(),
            };
            let old = trimmed(without_chars(decoded, seq!['[', ']', '|']));
            let shown = old.take(
                if old.len() < 30 {
                    old.len() as int
                } else {
                    30
                },
            );
            let globe = base + seq!['#', '\u{1f310}'] + speed + "Mb | "@;
            let located = base + seq!['#'] + flag + speed + "Mb | "@ + provider;
            if country != "XX"@ && provider != "Unknown"@ {
                &&& entry_line(named, speed, country, flag, provider) == located
                &&& entry_line(base, speed, country, flag, provider) == located
            } else {
                &&& entry_line(named, speed, country, flag, provider) == globe + shown
                &&& entry_line(base, speed, country, flag, provider) == globe + "Unnamed"@
            }
        }),
{
    law_cut_at_first(base, '#', name);
    reveal_strlit("#");
    reveal_strlit("#🌐");
    reveal_strlit("[]|");
    reveal_strlit("");
    assert("#"@ =~= seq!['#']);
    assert("#🌐"@ =~= seq!['#', '\u{1f310}']);
    assert("[]|"@ =~= seq!['[', ']', '|']);
    assert(""@ =~= Seq::<char>::empty());
    let decoded = match percent_decoded(name) {
        Some(decoded) => decoded,
        None => Seq::empty(),
    };
    let old = trimmed(without_chars(decoded, "[]|"@));
    assert(old.take(old.len() as int) =~= old);
}

/// The first column is as wide as the longest source, in bytes, and 60 where there is none.
pub proof fn law_first_column(list: Seq<Seq<char>>)
    ensures
        list.len() == 0 ==> first_column(list) == 60,
        forall|i: int|
            0 <= i < list.len() ==> encode_utf8(#[trigger] list[i]).len() <= first_column(list),
        list.len() > 0 ==> exists|i: int|
            0 <= i < list.len() && encode_utf8(#[trigger] list[i]).len() == first_column(list),
    decreases list.len(),
{
    if list.len() > 0 {
        let front = list.drop_last();
        law_first_column(front);
        let last = list.len() - 1;
        assert(list[last] == list.last());
        assert forall|i: int| 0 <= i < list.len() implies encode_utf8(#[trigger] list[i]).len()
            <= first_column(list) by {
            if i < last {
                assert(front[i] == list[i]);
            }
        }
        if front.len() > 0 && longest(front) > encode_utf8(list.last()).len() {
            let i = choose|i: int|
                0 <= i < front.len() && encode_utf8(#[trigger] front[i]).len() == first_column(
                    front,
                );
            assert(list[i] == front[i]);
        } else {
            assert(encode_utf8(list[last]).len() == first_column(list));
        }
    }
}

/// The report lists each source once, one with more usable lines before one with fewer.
pub proof fn law_report_order(rows: Seq<Row>)
    ensures
        by_line_count(rows).len() == rows.len(),
        exists|order: Seq<int>|
            order.len() == rows.len() && (forall|i: int|
                0 <= i < rows.len() ==> 0 <= #[trigger] order[i] < rows.len() && by_line_count(
                    rows,
                )[i] == rows[order[i]]) && (forall|k: int|
                0 <= k < rows.len() ==> #[trigger] order.contains(k)) && (forall|i: int, j: int|
                0 <= i < j < rows.len() ==> rows[#[trigger] order[i]].1.lines
                    >= rows[#[trigger] order[j]].1.lines && order[i] != order[j]),
{
    let order = ranking(line_counts(rows));
    law_ranking(line_counts(rows));
    assert forall|i: int| 0 <= i < rows.len() implies 0 <= #[trigger] order[i] < rows.len()
        && by_line_count(rows)[i] == rows[order[i]] by {}
    assert forall|i: int, j: int| 0 <= i < j < rows.len() implies rows[#[trigger] order[i]].1.lines
        >= rows[#[trigger] order[j]].1.lines && order[i] != order[j] by {
        assert(line_counts(rows)[order[i]] == rows[order[i]].1.lines);
        assert(line_counts(rows)[order[j]] == rows[order[j]].1.lines);
    }
}

/// Lists of rows say the same where they are as long and each row has the same source and figures.
pub proof fn law_same_rows(a: Seq<Row>, b: Seq<Row>)
    ensures
        same_rows(a, b) <==> a.len() == b.len() && forall|i: int|
            0 <= i < a.len() ==> (#[trigger] a[i]).0@ == b[i].0@ && a[i].1.lines == b[i].1.lines
                && a[i].1.size == b[i].1.size && a[i].1.unique == b[i].1.unique,
{
    if a.len() == b.len() && forall|i: int|
        0 <= i < a.len() ==> (#[trigger] a[i]).0@ == b[i].0@ && a[i].1.lines == b[i].1.lines
            && a[i].1.size == b[i].1.size && a[i].1.unique == b[i].1.unique {
        assert forall|i: int| 0 <= i < a.len() implies (#[trigger] a[i]).0@ == b[i].0@ && a[i].1
            == b[i].1 by {}
    }
}

/// A size is written in mebibytes with two decimals: the nearest hundredth, and of two that are as
/// near the even one.
pub proof fn law_mebibytes(size: nat)
    ensures
        exists|n: nat|
            mebibytes(size) == #[trigger] decimal(n / 100) + seq![
                '.',
                ('0' as int + n / 10 % 10) as char,
                ('0' as int + n % 10) as char,
            ] && -1048576 <= 2 * (n * 1048576 - 100 * size) <= 1048576 && (2 * (n * 1048576 - 100
                * size) == 1048576 || 2 * (n * 1048576 - 100 * size) == -1048576 ==> n % 2 == 0),
{
    reveal_strlit(".");
    let n = rounded(100 * size, 1048576);
    let whole = 100 * size / 1048576;
    let rest = 100 * size % 1048576;
    assert(100 * size == 1048576 * whole + rest);
    assert(mebibytes(size) =~= decimal(n / 100) + seq![
        '.',
        ('0' as int + n / 10 % 10) as char,
        ('0' as int + n % 10) as char,
    ]);
}

/// The table has a heading, a line for each source in the order of the report, and rules of dashes
/// 35 wider than the first column after the heading and at the end.
pub proof fn law_table(rows: Seq<Row>, i: int)
    ensures
        ({
            let width = first_column(sources(rows));
            let row = by_line_count(rows)[i];
            let bar = " | "@;
            &&& table(rows).len() == rows.len() + 3
            &&& table(rows)[0] == padded("Source"@, width) + bar + padded("Lines"@, 7) + bar
                + padded("Size (MB)"@, 10) + bar + padded("Unique"@, 7)
            &&& table(rows)[1] == repeated('-', width + 35)
            &&& table(rows)[rows.len() as int + 2] == repeated('-', width + 35)
            &&& 0 <= i < rows.len() ==> table(rows)[i + 2] == padded(row.0@, width) + bar + padded(
                decimal(row.1.lines as nat),
                7,
            ) + bar + padded(mebibytes(row.1.size as nat), 10) + bar + padded(
                decimal(row.1.unique as nat),
                7,
            )
            &&& sources(rows).len() == rows.len()
            &&& 0 <= i < rows.len() ==> sources(rows)[i] == rows[i].0@
        }),
{
}

/// The totals of two lists of sources together are the sums of their totals.
pub proof fn law_totals(a: Seq<Row>, row: Row, b: Seq<Row>)
    ensures
        total_lines(a + b) == total_lines(a) + total_lines(b),
        total_unique(a + b) == total_unique(a) + total_unique(b),
        total_lines(seq![row]) == row.1.lines,
        total_unique(seq![row]) == row.1.unique,
    decreases b.len(),
{
    let one = seq![row];
    assert(one.drop_last() =~= Seq::empty());
    assert(total_lines(Seq::empty()) == 0 && total_unique(Seq::empty()) == 0);
    if b.len() > 0 {
        law_totals(a, row, b.drop_last());
        assert((a + b).drop_last() =~= a + b.drop_last());
        assert((a + b).last() == b.last());
    } else {
        assert(a + b =~= a);
    }
}

} // verus!
