//! What a harvest keeps, line by line, and how a download is read.
use vstd::prelude::*;

use crate::encoding::{base64_decoding, base64_text, decoding, is_base64};
use crate::encoding::{lemma_decodes, lossy_text, Base64Error};
use crate::harvest::{counted, counted_all, encoded_part, harvested, kept, node_in};
use crate::harvest::{readable_text, rejection_notices, HarvestView, Tally};
use crate::json::opt_bytes;
use crate::link::fingerprint_of;
use crate::text::{before_first, lemma_trimmed_same};
use crate::text::{lemma_without_white_space, line_texts, trimmed, white_space};
use crate::text::without_white_space;
use crate::text_laws::law_has_text;
use crate::vless_collector::{report_of, validated, Rejection};

verus! {

/// A line holds a usable node exactly where it is not blank and what it holds, outer white space
/// aside, is accepted; the node is what it is then written as.
pub proof fn law_node_in(line: Seq<char>, node: Seq<char>)
    ensures
        node_in(line) == Some(node) <==> trimmed(line).len() > 0 && validated(trimmed(line))
            == Ok::<Seq<char>, Rejection>(node),
{
}

/// The outcome of a decoding says what the bytes in it say.
pub proof fn law_decoding_says(outcome: Result<Vec<u8>, Base64Error>, bytes: Option<Vec<u8>>)
    ensures
        outcome matches Ok(b) ==> decoding(outcome) == Ok::<Seq<u8>, Base64Error>(b@),
        outcome matches Err(e) ==> decoding(outcome) == Err::<Seq<u8>, Base64Error>(e),
        bytes matches Some(b) ==> opt_bytes(bytes) == Some(b@),
        bytes is None ==> opt_bytes(bytes) is None,
{
}

/// What decodes is the Base64 text of what it decodes to, and what is none in either alphabet does
/// not decode.
pub proof fn law_only_base64_decodes(text: Seq<char>, bytes: Seq<u8>)
    ensures
        base64_decoding(text) == Ok::<Seq<u8>, Base64Error>(bytes) <==> base64_text(bytes, false)
            == trimmed(text) || base64_text(bytes, true) == trimmed(text),
        base64_decoding(text) is Err <==> !is_base64(trimmed(text), false) && !is_base64(
            trimmed(text),
            true,
        ),
{
    let core = trimmed(text);
    if base64_text(bytes, false) == core {
        lemma_decodes(text, bytes, false);
    }
    if base64_text(bytes, true) == core {
        lemma_decodes(text, bytes, true);
    }
}

/// A download in which a link stands is read as it is. Any other is read as what its characters,
/// white space aside, are the Base64 text of, in either alphabet, and as it is where they are none.
pub proof fn law_readable(raw: Seq<char>, bytes: Seq<u8>, url_safe: bool)
    ensures
        ({
            let linked = exists|a: Seq<char>, b: Seq<char>| #[trigger] (a + "vless://"@ + b) == raw;
            let inked = without_white_space(raw);
            &&& linked ==> readable_text(raw) == raw && encoded_part(raw) is None
            &&& !linked ==> encoded_part(raw) == Some(inked)
            &&& !linked && base64_text(bytes, url_safe) == inked ==> readable_text(raw)
                == lossy_text(bytes)
            &&& !linked && !is_base64(inked, false) && !is_base64(inked, true) ==> readable_text(
                raw,
            ) == raw
        }),
{
    law_has_text(raw, "vless://"@);
    lemma_without_white_space(raw);
    let inked = without_white_space(raw);
    if base64_text(bytes, url_safe) == inked {
        lemma_decodes(inked, bytes, url_safe);
    }
    lemma_inked(raw);
    lemma_trimmed_same(inked);
}

/// What is left without white space has none at its ends.
proof fn lemma_inked(raw: Seq<char>)
    ensures
        ({
            let inked = without_white_space(raw);
            inked.len() > 0 ==> !white_space(inked.first())
                && !white_space(inked.last())
        }),
{
    broadcast use vstd::seq_lib::group_filter_ensures;

    let keep = |c: char| !white_space(c);
    let inked = raw.filter(keep);
    if inked.len() > 0 {
        assert(keep(inked[0]));
        assert(keep(inked[inked.len() - 1]));
    }
}

/// Lines count one after the other: those that come later are counted on what earlier ones left.
pub proof fn law_lines_in_turn(t: Tally, a: Seq<Seq<char>>, b: Seq<Seq<char>>)
    ensures
        counted_all(t, a + b) == counted_all(counted_all(t, a), b),
        counted_all(t, Seq::empty()) == t,
    decreases b.len(),
{
    if b.len() > 0 {
        law_lines_in_turn(t, a, b.drop_last());
        assert((a + b).drop_last() =~= a + b.drop_last());
        assert((a + b).last() == b.last());
    } else {
        assert(a + b =~= a);
    }
}

/// A line without a usable node leaves all as it was. One with a usable node is counted; where its
/// fingerprint is new, fingerprint and node are kept, and the node counts as new unless it was
/// there. Nothing else changes.
pub proof fn law_line(t: Tally, line: Seq<char>)
    ensures
        ({
            let after = counted_all(t, seq![line]);
            match node_in(line) {
                None => after == t,
                Some(node) => {
                    &&& after.lines == t.lines + 1
                    &&& match fingerprint_of(node) {
                        Some(print) => if t.fingerprints.contains(print) {
                            after.fingerprints == t.fingerprints && after.nodes == t.nodes
                                && after.unique == t.unique
                        } else {
                            &&& after.fingerprints == t.fingerprints.insert(print)
                            &&& after.nodes == t.nodes.insert(node)
                            &&& after.unique == if t.nodes.contains(node) {
                                t.unique
                            } else {
                                t.unique + 1
                            }
                        },
                        None => after.fingerprints == t.fingerprints && after.nodes == t.nodes
                            && after.unique == t.unique,
                    }
                },
            }
        }),
{
    let one = seq![line];
    assert(one.drop_last() =~= Seq::empty());
    assert(counted_all(t, Seq::empty()) == t);
}

/// A node is kept where it has a fingerprint that is not known, and is new where it was not there.
pub proof fn law_kept(t: Tally, node: Seq<char>, print: Seq<char>)
    ensures
        kept(t, node, None) == (Tally { lines: t.lines + 1, ..t }),
        t.fingerprints.contains(print) ==> kept(t, node, Some(print)) == (Tally {
            lines: t.lines + 1,
            ..t
        }),
        !t.fingerprints.contains(print) ==> ({
            let after = kept(t, node, Some(print));
            &&& after.fingerprints == t.fingerprints.insert(print)
            &&& after.nodes == t.nodes.insert(node)
            &&& after.unique == if t.nodes.contains(node) {
                t.unique
            } else {
                t.unique + 1
            }
        }),
{
}

/// A source changes the fingerprints and nodes by its lines and by nothing else, and its own record
/// alone: the usable lines and new nodes among them, counted from none, and the size of the
/// download.
pub proof fn law_source(
    h: HarvestView,
    source: Seq<char>,
    size: usize,
    text: Seq<char>,
    other: Seq<char>,
)
    ensures
        ({
            let start = Tally {
                fingerprints: h.fingerprints,
                nodes: h.nodes,
                lines: 0,
                unique: 0,
            };
            let end = counted_all(start, line_texts(text));
            let after = harvested(h, source, size, text);
            &&& after.fingerprints == end.fingerprints
            &&& after.nodes == end.nodes
            &&& after.stats.contains_key(source)
            &&& after.stats[source].size == size
            &&& end.lines <= usize::MAX ==> after.stats[source].lines == end.lines
            &&& end.unique <= usize::MAX ==> after.stats[source].unique == end.unique
            &&& other != source ==> (after.stats.contains_key(other) == h.stats.contains_key(other))
            &&& other != source && h.stats.contains_key(other) ==> after.stats[other]
                == h.stats[other]
        }),
{
}

/// Lines are refused one by one: a line that is not blank and not accepted has its notice, with the
/// reason and the link before its name, and any other has none.
pub proof fn law_rejection_notices(a: Seq<Seq<char>>, line: Seq<char>, b: Seq<Seq<char>>)
    ensures
        rejection_notices(a + b) == rejection_notices(a) + rejection_notices(b),
        rejection_notices(seq![line]) == match validated(trimmed(line)) {
            Err(reason) => if trimmed(line).len() > 0 {
                seq![
                    "REJECTED ["@ + report_of(reason) + "]: "@ + before_first(trimmed(line), '#'),
                ]
            } else {
                Seq::empty()
            },
            Ok(_) => Seq::empty(),
        },
    decreases b.len(),
{
    let one = seq![line];
    assert(one.drop_last() =~= Seq::empty());
    assert(rejection_notices(Seq::empty()) =~= Seq::empty());
    assert(rejection_notices(one) =~= match validated(trimmed(line)) {
        Err(reason) => if trimmed(line).len() > 0 {
            seq!["REJECTED ["@ + report_of(reason) + "]: "@ + before_first(trimmed(line), '#')]
        } else {
            Seq::empty()
        },
        Ok(_) => Seq::empty(),
    });
    if b.len() > 0 {
        law_rejection_notices(a, line, b.drop_last());
        assert((a + b).drop_last() =~= a + b.drop_last());
        assert((a + b).last() == b.last());
        assert(rejection_notices(a + b) =~= rejection_notices(a) + rejection_notices(b));
    } else {
        assert(a + b =~= a);
        assert(rejection_notices(a + b) =~= rejection_notices(a) + rejection_notices(b));
    }
}

} // verus!
