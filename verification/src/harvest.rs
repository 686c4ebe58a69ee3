//! Harvesting: the nodes that the sources list, each kept once, and what each source gave.
use dashmap::{DashMap, DashSet};
use vstd::prelude::*;
use vstd::utf8::{encode_utf8, encode_utf8_decode_utf8, encode_utf8_valid_utf8};

use crate::encoding::{base64_text, lemma_base64_chars, lemma_decodes};
use crate::encoding::{base64_decoding, decode_base64_safe, lossy_text, read_lossy};
use crate::ledger::{add_member, list_members, list_records, new_map, new_set, put_record};
use crate::ledger::{members, records, sources, SourceStats};
use crate::link::{fingerprint, fingerprint_of, opt_text, plain_head};
use crate::text::{after_first, before_first, has_text, line_texts, stands_at, texts, trimmed};
use crate::text::lemma_without_white_space;
use crate::text::{contains_text, lines, remove_white_space, same_text, trim, without_white_space};
use crate::vless_collector::{notice_of, rejection_notice, validate_vless_node, validated};

verus! {

/// The texts of `lines` that are left when their outer white space is removed and the empty
/// ones are dropped, each once, in the order of their first appearance.
pub open spec fn distinct_entries(lines: Seq<Seq<char>>) -> Seq<Seq<char>>
    decreases lines.len(),
{
    if lines.len() == 0 {
        Seq::empty()
    } else {
        let before = distinct_entries(lines.drop_last());
        let entry = trimmed(lines.last());
        if entry.len() == 0 || before.contains(entry) {
            before
        } else {
            before.push(entry)
        }
    }
}

/// Whether `list` holds `entry`.
fn holds(list: &Vec<String>, entry: &str) -> (found: bool)
    ensures
        found == texts(list@).contains(entry@),
{
    let mut i: usize = 0;
    while i < list.len()
        invariant
            i <= list.len(),
            forall|j: int| 0 <= j < i ==> (#[trigger] texts(list@)[j]) != entry@,
        decreases list.len() - i,
    {
        assert(texts(list@)[i as int] == list@[i as int]@);
        if same_text(list[i].as_str(), entry) {
            return true;
        }
        i += 1;
    }
    false
}

/// Reads the list of sources: one on each line, blank lines and repetitions aside.
pub fn read_sources(content: &str) -> (list: Vec<String>)
    ensures
        texts(list@) == distinct_entries(line_texts(content@)),
{
    let all = lines(content);
    let ghost all_texts = texts(all@);
    let mut list: Vec<String> = Vec::new();
    let mut i: usize = 0;
    assert(all_texts.take(0) =~= Seq::empty());
    assert(texts(list@) =~= Seq::empty());
    while i < all.len()
        invariant
            i <= all.len(),
            all_texts == texts(all@),
            texts(list@) == distinct_entries(all_texts.take(i as int)),
        decreases all.len() - i,
    {
        let entry = trim(all[i].as_str());
        assert(all_texts.take(i + 1).drop_last() =~= all_texts.take(i as int));
        assert(all_texts.take(i + 1).last() == all@[i as int]@);
        if !entry.as_str().is_empty() && !holds(&list, entry.as_str()) {
            let ghost before = texts(list@);
            list.push(entry);
            assert(texts(list@) =~= before.push(entry@));
        }
        i += 1;
    }
    assert(all_texts.take(i as int) =~= all_texts);
    list
}

/// What has to be decoded before a download can be read, its white space removed; `None` where
/// the links stand in it as they are.
pub open spec fn encoded_part(raw: Seq<char>) -> Option<Seq<char>> {
    if has_text(raw, "vless://"@) {
        None
    } else {
        Some(without_white_space(trimmed(raw)))
    }
}

/// The text of a download, given how it reads as UTF-8.
pub open spec fn readable_text(raw: Seq<char>) -> Seq<char> {
    match encoded_part(raw) {
        None => raw,
        Some(encoded) => match base64_decoding(encoded) {
            Ok(bytes) => lossy_text(bytes),
            Err(_) => raw,
        },
    }
}

/// Finds what has to be decoded before a download can be read.
pub fn find_encoded(raw: &str) -> (encoded: Option<String>)
    ensures
        opt_text(encoded) == encoded_part(raw@),
{
    if contains_text(raw, "vless://") {
        None
    } else {
        Some(remove_white_space(trim(raw).as_str()))
    }
}

/// Reads a download: a list of links, as it is or in Base64.
pub fn read_download(bytes: &Vec<u8>) -> (text: String)
    ensures
        text@ == readable_text(lossy_text(bytes@)),
{
    let raw = read_lossy(bytes.as_slice());
    match find_encoded(raw.as_str()) {
        None => raw,
        Some(encoded) => match decode_base64_safe(encoded.as_str()) {
            Ok(decoded) => read_lossy(decoded.as_slice()),
            Err(_) => raw,
        },
    }
}

/// The nodes kept so far, and the counts for the source at hand.
pub struct Tally {
    /// The fingerprints of the nodes.
    pub fingerprints: Set<Seq<char>>,
    /// The nodes.
    pub nodes: Set<Seq<char>>,
    /// The lines with a usable node.
    pub lines: nat,
    /// The nodes that were new.
    pub unique: nat,
}

/// The tally after one more usable node with its fingerprint.
pub open spec fn kept(t: Tally, node: Seq<char>, print: Option<Seq<char>>) -> Tally {
    match print {
        Some(print) => if t.fingerprints.contains(print) {
            Tally { lines: t.lines + 1, ..t }
        } else {
            Tally {
                fingerprints: t.fingerprints.insert(print),
                nodes: t.nodes.insert(node),
                lines: t.lines + 1,
                unique: if t.nodes.contains(node) {
                    t.unique
                } else {
                    t.unique + 1
                },
            }
        },
        None => Tally { lines: t.lines + 1, ..t },
    }
}

/// The usable node in a line, if there is one.
pub open spec fn node_in(line: Seq<char>) -> Option<Seq<char>> {
    if trimmed(line).len() == 0 {
        None
    } else {
        match validated(trimmed(line)) {
            Ok(node) => Some(node),
            Err(_) => None,
        }
    }
}

/// The tally after one more line.
pub open spec fn counted(t: Tally, line: Seq<char>) -> Tally {
    match node_in(line) {
        Some(node) => kept(t, node, fingerprint_of(node)),
        None => t,
    }
}

/// The tally after all of `lines`.
pub open spec fn counted_all(t: Tally, lines: Seq<Seq<char>>) -> Tally
    decreases lines.len(),
{
    if lines.len() == 0 {
        t
    } else {
        counted(counted_all(t, lines.drop_last()), lines.last())
    }
}

/// What a harvest holds.
pub struct HarvestView {
    pub fingerprints: Set<Seq<char>>,
    pub nodes: Set<Seq<char>>,
    pub stats: Map<Seq<char>, SourceStats>,
}

/// The tally with which a source begins.
pub open spec fn opening(h: HarvestView) -> Tally {
    Tally { fingerprints: h.fingerprints, nodes: h.nodes, lines: 0, unique: 0 }
}

/// The harvest after a source whose download, of `size` bytes, reads `text`.
pub open spec fn harvested(
    h: HarvestView,
    source: Seq<char>,
    size: usize,
    text: Seq<char>,
) -> HarvestView {
    let t = counted_all(opening(h), line_texts(text));
    HarvestView {
        fingerprints: t.fingerprints,
        nodes: t.nodes,
        stats: h.stats.insert(
            source,
            SourceStats { lines: t.lines as usize, size, unique: t.unique as usize },
        ),
    }
}

/// The nodes that the sources gave, each kept once, and what each source gave.
pub struct Harvest {
    fingerprints: DashSet<String>,
    nodes: DashSet<String>,
    stats: DashMap<String, SourceStats>,
}

impl View for Harvest {
    type V = HarvestView;

    closed spec fn view(&self) -> HarvestView {
        HarvestView {
            fingerprints: members(self.fingerprints),
            nodes: members(self.nodes),
            stats: records(self.stats),
        }
    }
}

/// The notices on the lines that hold no usable node, blank lines aside.
pub open spec fn rejection_notices(lines: Seq<Seq<char>>) -> Seq<Seq<char>>
    decreases lines.len(),
{
    if lines.len() == 0 {
        Seq::empty()
    } else {
        let before = rejection_notices(lines.drop_last());
        let line = trimmed(lines.last());
        match validated(line) {
            Err(reason) => if line.len() > 0 {
                before.push(notice_of(reason, line))
            } else {
                before
            },
            Ok(_) => before,
        }
    }
}

/// Lists why the lines of a text are no usable nodes.
pub fn list_rejections(text: &str) -> (notices: Vec<String>)
    ensures
        texts(notices@) == rejection_notices(line_texts(text@)),
{
    let list = lines(text);
    let ghost all = texts(list@);
    let mut notices: Vec<String> = Vec::new();
    let mut i: usize = 0;
    assert(all.take(0) =~= Seq::empty());
    assert(texts(notices@) =~= Seq::empty());
    while i < list.len()
        invariant
            i <= list.len(),
            all == texts(list@),
            texts(notices@) == rejection_notices(all.take(i as int)),
        decreases list.len() - i,
    {
        let line = trim(list[i].as_str());
        assert(all.take(i + 1).drop_last() =~= all.take(i as int));
        assert(all.take(i + 1).last() == list@[i as int]@);
        if !line.as_str().is_empty() {
            match validate_vless_node(line.as_str()) {
                Ok(_) => {},
                Err(reason) => {
                    let ghost before = texts(notices@);
                    let notice = rejection_notice(&reason, line.as_str());
                    notices.push(notice);
                    assert(texts(notices@) =~= before.push(notice@));
                },
            }
        }
        i += 1;
    }
    assert(all.take(i as int) =~= all);
    notices
}

/// The harvest before any source.
pub open spec fn nothing_harvested() -> HarvestView {
    HarvestView { fingerprints: Set::empty(), nodes: Set::empty(), stats: Map::empty() }
}

impl Harvest {
    /// Begins a harvest.
    pub fn new() -> (harvest: Harvest)
        ensures
            harvest@ == nothing_harvested(),
    {
        Harvest { fingerprints: new_set(), nodes: new_set(), stats: new_map() }
    }

    /// Keeps a node unless its fingerprint is known, and says whether it is new.
    pub fn keep(&mut self, node: String, print: Option<String>) -> (fresh: bool)
        ensures
            ({
                let t = kept(opening(old(self)@), node@, opt_text(print));
                &&& final(self)@.fingerprints == t.fingerprints
                &&& final(self)@.nodes == t.nodes
                &&& final(self)@.stats == old(self)@.stats
                &&& fresh == (t.unique == 1)
            }),
    {
        match print {
            Some(print) => {
                if add_member(&mut self.fingerprints, print) {
                    add_member(&mut self.nodes, node)
                } else {
                    assert(self@.fingerprints =~= old(self)@.fingerprints);
                    false
                }
            },
            None => false,
        }
    }

    /// Keeps the nodes of a download that reads `text`, and records what the source gave.
    pub fn harvest_text(&mut self, source: &str, size: usize, text: &str)
        ensures
            final(self)@ == harvested(old(self)@, source@, size, text@),
    {
        let list = lines(text);
        let ghost all = texts(list@);
        let ghost start = opening(self@);
        let mut line_count: usize = 0;
        let mut unique: usize = 0;
        let mut i: usize = 0;
        while i < list.len()
            invariant
                i <= list.len(),
                all == texts(list@),
                line_count <= i,
                unique <= i,
                self@.stats == old(self)@.stats,
                counted_all(start, all.take(i as int)) == (Tally {
                    fingerprints: self@.fingerprints,
                    nodes: self@.nodes,
                    lines: line_count as nat,
                    unique: unique as nat,
                }),
            decreases list.len() - i,
        {
            let trimmed_line = trim(list[i].as_str());
            assert(all.take(i + 1).drop_last() =~= all.take(i as int));
            assert(all.take(i + 1).last() == list@[i as int]@);
            if !trimmed_line.as_str().is_empty() {
                match validate_vless_node(trimmed_line.as_str()) {
                    Ok(node) => {
                        line_count += 1;
                        let print = fingerprint(node.as_str());
                        if self.keep(node, print) {
                            unique += 1;
                        }
                    },
                    Err(_) => {},
                }
            }
            i += 1;
        }
        assert(all.take(i as int) =~= all);
        put_record(
            &mut self.stats,
            source.to_owned(),
            SourceStats { lines: line_count, size, unique },
        );
    }

    /// Keeps the nodes of a download, and records what the source gave.
    pub fn harvest_source(&mut self, source: &str, bytes: &Vec<u8>)
        ensures
            final(self)@ == harvested(
                old(self)@,
                source@,
                bytes@.len() as usize,
                readable_text(lossy_text(bytes@)),
            ),
    {
        let text = read_download(bytes);
        self.harvest_text(source, bytes.len(), text.as_str());
    }

    /// The nodes, each once, in no particular order.
    pub fn nodes(&self) -> (list: Vec<String>)
        ensures
            texts(list@).no_duplicates(),
            texts(list@).to_set() == self@.nodes,
    {
        list_members(&self.nodes)
    }

    /// What each source gave, in no particular order.
    pub fn records(&self) -> (rows: Vec<(String, SourceStats)>)
        ensures
            sources(rows@).no_duplicates(),
            sources(rows@).to_set() == self@.stats.dom(),
            forall|i: int| 0 <= i < rows@.len() ==> self@.stats[(#[trigger] rows@[i]).0@] == rows@[i].1,
    {
        list_records(&self.stats)
    }
}

/// Whether each node was kept for a fingerprint of its own, and each fingerprint for a node.
pub open spec fn one_node_each(fingerprints: Set<Seq<char>>, nodes: Set<Seq<char>>) -> bool {
    &&& forall|n: Seq<char>| #[trigger]
        nodes.contains(n) ==> fingerprint_of(n) is Some && fingerprints.contains(
            fingerprint_of(n)->0,
        )
    &&& forall|n: Seq<char>, m: Seq<char>| #[trigger]
        nodes.contains(n) && #[trigger] nodes.contains(m) && fingerprint_of(n) == fingerprint_of(m)
            ==> n == m
    &&& forall|f: Seq<char>| #[trigger]
        fingerprints.contains(f) ==> exists|n: Seq<char>| #[trigger]
            nodes.contains(n) && fingerprint_of(n) == Some(f)
}

/// Whether one of `lines` holds a usable node with this fingerprint.
pub open spec fn prints(lines: Seq<Seq<char>>, print: Seq<char>) -> bool {
    exists|i: int|
        0 <= i < lines.len() && node_in(#[trigger] lines[i]) is Some && fingerprint_of(
            node_in(lines[i])->0,
        ) == Some(print)
}

/// One more line keeps one node for each fingerprint.
proof fn lemma_counted_keeps(t: Tally, line: Seq<char>)
    requires
        one_node_each(t.fingerprints, t.nodes),
    ensures
        one_node_each(counted(t, line).fingerprints, counted(t, line).nodes),
{
    let u = counted(t, line);
    if u.fingerprints != t.fingerprints {
        let node = node_in(line)->0;
        let print = fingerprint_of(node)->0;
        assert(!t.fingerprints.contains(print));
        assert(!t.nodes.contains(node));
        assert forall|f: Seq<char>| #[trigger] u.fingerprints.contains(f) implies exists|
            n: Seq<char>,
        | #[trigger]
            u.nodes.contains(n) && fingerprint_of(n) == Some(f) by {
            if f == print {
                assert(u.nodes.contains(node));
            } else {
                assert(t.fingerprints.contains(f));
                let n = choose|n: Seq<char>| #[trigger]
                    t.nodes.contains(n) && fingerprint_of(n) == Some(f);
                assert(u.nodes.contains(n));
            }
        }
    } else {
        assert(u.nodes =~= t.nodes) by {
            if node_in(line) is Some && fingerprint_of(node_in(line)->0) is Some {
                let print = fingerprint_of(node_in(line)->0)->0;
                if !t.fingerprints.contains(print) {
                    assert(u.fingerprints.contains(print));
                }
            }
        }
    }
}

/// However many lines are read, one node is kept for each fingerprint.
proof fn lemma_counted_all_keeps(t: Tally, lines: Seq<Seq<char>>)
    requires
        one_node_each(t.fingerprints, t.nodes),
    ensures
        one_node_each(counted_all(t, lines).fingerprints, counted_all(t, lines).nodes),
    decreases lines.len(),
{
    if lines.len() > 0 {
        lemma_counted_all_keeps(t, lines.drop_last());
        lemma_counted_keeps(counted_all(t, lines.drop_last()), lines.last());
    }
}

/// The lines with a usable node.
pub open spec fn usable_lines(lines: Seq<Seq<char>>) -> Seq<Seq<char>> {
    lines.filter(|line: Seq<char>| node_in(line) is Some)
}

/// What the lines add: the usable ones are counted, the new nodes are counted, and the
/// fingerprints are those known before and those of the usable nodes.
proof fn lemma_counted_all_adds(t: Tally, lines: Seq<Seq<char>>)
    requires
        t.nodes.finite(),
        one_node_each(t.fingerprints, t.nodes),
    ensures
        counted_all(t, lines).lines == t.lines + usable_lines(lines).len(),
        counted_all(t, lines).nodes.finite(),
        counted_all(t, lines).nodes.len() + t.unique == t.nodes.len() + counted_all(
            t,
            lines,
        ).unique,
        counted_all(t, lines).unique - t.unique <= usable_lines(lines).len(),
        t.nodes.subset_of(counted_all(t, lines).nodes),
        forall|f: Seq<char>|
            counted_all(t, lines).fingerprints.contains(f) <==> t.fingerprints.contains(f)
                || #[trigger] prints(lines, f),
    decreases lines.len(),
{
    reveal(Seq::filter);
    if lines.len() > 0 {
        let front = lines.drop_last();
        lemma_counted_all_adds(t, front);
        lemma_counted_all_keeps(t, front);
        let u = counted_all(t, front);
        let w = counted(u, lines.last());
        assert forall|f: Seq<char>| w.fingerprints.contains(f) <==> t.fingerprints.contains(f)
            || #[trigger] prints(lines, f) by {
            assert(u.fingerprints.contains(f) <==> t.fingerprints.contains(f) || prints(front, f));
            let own = node_in(lines.last()) is Some && fingerprint_of(node_in(lines.last())->0)
                == Some(f);
            if prints(front, f) {
                let i = choose|i: int|
                    0 <= i < front.len() && node_in(#[trigger] front[i]) is Some && fingerprint_of(
                        node_in(front[i])->0,
                    ) == Some(f);
                assert(lines[i] == front[i]);
            }
            if own {
                assert(lines[lines.len() - 1] == lines.last());
            }
            if prints(lines, f) && !own {
                let i = choose|i: int|
                    0 <= i < lines.len() && node_in(#[trigger] lines[i]) is Some && fingerprint_of(
                        node_in(lines[i])->0,
                    ) == Some(f);
                assert(i < front.len());
                assert(front[i] == lines[i]);
            }
        }
    } else {
        assert forall|f: Seq<char>| !(#[trigger] prints(lines, f)) by {}
    }
}

/// A harvest begins with one node for each fingerprint: none.
pub proof fn law_new_harvest()
    ensures
        one_node_each(nothing_harvested().fingerprints, nothing_harvested().nodes),
        nothing_harvested().nodes.finite(),
        nothing_harvested().nodes.len() == 0,
{
}

/// No source can make a harvest keep two nodes with one fingerprint, or drop one that it has.
pub proof fn law_one_node_for_each_fingerprint(
    h: HarvestView,
    source: Seq<char>,
    size: usize,
    text: Seq<char>,
)
    requires
        one_node_each(h.fingerprints, h.nodes),
        h.nodes.finite(),
    ensures
        ({
            let after = harvested(h, source, size, text);
            &&& one_node_each(after.fingerprints, after.nodes)
            &&& after.nodes.finite()
            &&& h.nodes.subset_of(after.nodes)
        }),
{
    lemma_counted_all_keeps(opening(h), line_texts(text));
    lemma_counted_all_adds(opening(h), line_texts(text));
}

/// A source adds the fingerprints of its usable nodes and no others, so that none of its nodes
/// goes unrepresented.
pub proof fn law_nothing_is_lost(
    h: HarvestView,
    source: Seq<char>,
    size: usize,
    text: Seq<char>,
    print: Seq<char>,
)
    requires
        one_node_each(h.fingerprints, h.nodes),
        h.nodes.finite(),
    ensures
        harvested(h, source, size, text).fingerprints.contains(print) <==> h.fingerprints.contains(
            print,
        ) || prints(line_texts(text), print),
{
    let lines = line_texts(text);
    lemma_counted_all_adds(opening(h), lines);
    let t = opening(h);
    let p = prints(lines, print);
    assert(counted_all(t, lines).fingerprints.contains(print) <==> t.fingerprints.contains(print)
        || p);
}

/// Whether one of `lines` holds this usable node.
pub open spec fn lists_node(lines: Seq<Seq<char>>, node: Seq<char>) -> bool {
    exists|i: int| 0 <= i < lines.len() && node_in(#[trigger] lines[i]) == Some(node)
}

/// A node that lines leave was there before or stands in one of them.
proof fn lemma_nodes_come_from_lines(t: Tally, lines: Seq<Seq<char>>, node: Seq<char>)
    requires
        counted_all(t, lines).nodes.contains(node),
    ensures
        t.nodes.contains(node) || lists_node(lines, node),
    decreases lines.len(),
{
    if lines.len() > 0 {
        let front = lines.drop_last();
        if counted_all(t, front).nodes.contains(node) {
            lemma_nodes_come_from_lines(t, front, node);
            if lists_node(front, node) {
                let i = choose|i: int|
                    0 <= i < front.len() && node_in(#[trigger] front[i]) == Some(node);
                assert(node_in(lines[i]) == Some(node));
            }
        } else {
            assert(node_in(lines[lines.len() - 1]) == Some(node));
        }
    }
}

/// A harvest keeps no node but those that it had and the usable ones that the source lists.
pub proof fn law_nothing_is_made_up(
    h: HarvestView,
    source: Seq<char>,
    size: usize,
    text: Seq<char>,
    node: Seq<char>,
)
    requires
        harvested(h, source, size, text).nodes.contains(node),
    ensures
        h.nodes.contains(node) || lists_node(line_texts(text), node),
{
    lemma_nodes_come_from_lines(opening(h), line_texts(text), node);
}

/// The first of the lines with a new fingerprint is the one whose node is kept.
proof fn lemma_first_is_kept(t: Tally, lines: Seq<Seq<char>>, i: int)
    requires
        one_node_each(t.fingerprints, t.nodes),
        t.nodes.finite(),
        0 <= i < lines.len(),
        node_in(lines[i]) is Some,
        fingerprint_of(node_in(lines[i])->0) is Some,
        !t.fingerprints.contains(fingerprint_of(node_in(lines[i])->0)->0),
        !prints(lines.take(i), fingerprint_of(node_in(lines[i])->0)->0),
    ensures
        counted_all(t, lines).nodes.contains(node_in(lines[i])->0),
    decreases lines.len(),
{
    let front = lines.drop_last();
    let print = fingerprint_of(node_in(lines[i])->0)->0;
    if i == lines.len() - 1 {
        assert(front =~= lines.take(i));
        lemma_counted_all_adds(t, front);
        let u = counted_all(t, front);
        let p = prints(front, print);
        assert(u.fingerprints.contains(print) <==> t.fingerprints.contains(print) || p);
    } else {
        assert(front[i] == lines[i]);
        assert(front.take(i) =~= lines.take(i));
        lemma_first_is_kept(t, front, i);
    }
}

/// Of the nodes with one fingerprint that is new to the harvest, the one that a source lists first
/// is kept, under the name that it has there.
pub proof fn law_first_is_kept(
    h: HarvestView,
    source: Seq<char>,
    size: usize,
    text: Seq<char>,
    i: int,
)
    requires
        one_node_each(h.fingerprints, h.nodes),
        h.nodes.finite(),
        0 <= i < line_texts(text).len(),
        node_in(line_texts(text)[i]) is Some,
        fingerprint_of(node_in(line_texts(text)[i])->0) is Some,
        !h.fingerprints.contains(fingerprint_of(node_in(line_texts(text)[i])->0)->0),
        !prints(line_texts(text).take(i), fingerprint_of(node_in(line_texts(text)[i])->0)->0),
    ensures
        harvested(h, source, size, text).nodes.contains(node_in(line_texts(text)[i])->0),
{
    lemma_first_is_kept(opening(h), line_texts(text), i);
}

/// Which fingerprints two sources leave does not depend on which of them comes first.
pub proof fn law_source_order_is_free(
    h: HarvestView,
    a: (Seq<char>, usize, Seq<char>),
    b: (Seq<char>, usize, Seq<char>),
)
    requires
        one_node_each(h.fingerprints, h.nodes),
        h.nodes.finite(),
    ensures
        harvested(harvested(h, a.0, a.1, a.2), b.0, b.1, b.2).fingerprints == harvested(
            harvested(h, b.0, b.1, b.2),
            a.0,
            a.1,
            a.2,
        ).fingerprints,
{
    let x = harvested(h, a.0, a.1, a.2);
    let y = harvested(h, b.0, b.1, b.2);
    law_one_node_for_each_fingerprint(h, a.0, a.1, a.2);
    law_one_node_for_each_fingerprint(h, b.0, b.1, b.2);
    let xy = harvested(x, b.0, b.1, b.2).fingerprints;
    let yx = harvested(y, a.0, a.1, a.2).fingerprints;
    assert forall|f: Seq<char>| xy.contains(f) == yx.contains(f) by {
        law_nothing_is_lost(h, a.0, a.1, a.2, f);
        law_nothing_is_lost(h, b.0, b.1, b.2, f);
        law_nothing_is_lost(x, b.0, b.1, b.2, f);
        law_nothing_is_lost(y, a.0, a.1, a.2, f);
    }
    assert(xy =~= yx);
}

/// Nodes that differ only in the name after `#` are kept once, and so are a node with a name and
/// one without, unless the link is such that the parser reads it differently at the end of a text.
pub proof fn law_names_do_not_count(
    fingerprints: Set<Seq<char>>,
    nodes: Set<Seq<char>>,
    a: Seq<char>,
    b: Seq<char>,
)
    requires
        one_node_each(fingerprints, nodes),
        nodes.contains(a),
        nodes.contains(b),
        before_first(a, '#') == before_first(b, '#'),
        plain_head(before_first(a, '#')) || (after_first(a, '#') is Some && after_first(
            b,
            '#',
        ) is Some),
    ensures
        a == b,
{
}

/// The record of a source counts its usable lines, and its new nodes are those by which the
/// harvest grew.
pub proof fn law_record(h: HarvestView, source: Seq<char>, size: usize, text: Seq<char>)
    requires
        one_node_each(h.fingerprints, h.nodes),
        h.nodes.finite(),
        usable_lines(line_texts(text)).len() <= usize::MAX,
    ensures
        ({
            let after = harvested(h, source, size, text);
            &&& after.stats.contains_key(source)
            &&& after.stats[source].size == size
            &&& after.stats[source].lines == usable_lines(line_texts(text)).len()
            &&& after.stats[source].unique + h.nodes.len() == after.nodes.len()
        }),
{
    lemma_counted_all_adds(opening(h), line_texts(text));
}

/// A download that is the Base64 text of a text, in either alphabet and with white space anywhere
/// in it, reads as that text.
pub proof fn law_encoded_download(raw: Seq<char>, text: Seq<char>, url_safe: bool)
    requires
        without_white_space(raw) == base64_text(encode_utf8(text), url_safe),
    ensures
        readable_text(lossy_text(encode_utf8(raw))) == text,
{
    let bytes = encode_utf8(text);
    encode_utf8_valid_utf8(raw);
    encode_utf8_decode_utf8(raw);
    encode_utf8_valid_utf8(text);
    encode_utf8_decode_utf8(text);
    lemma_base64_chars(bytes, url_safe);
    lemma_without_white_space(raw);
    if has_text(raw, "vless://"@) {
        reveal_strlit("vless://");
        let at = choose|at: int| stands_at(raw, "vless://"@, at);
        assert(raw.subrange(at, at + "vless://"@.len())[5] == "vless://"@[5]);
        assert(raw[at + 5] == ':');
        assert(raw.contains(':'));
        assert(base64_text(bytes, url_safe).contains(':'));
    }
    lemma_decodes(without_white_space(trimmed(raw)), bytes, url_safe);
}

/// A list of links and its Base64 text, with white space anywhere in it, give the same nodes, and
/// records that differ in the size of the download alone.
pub proof fn law_encoding_does_not_count(
    h: HarvestView,
    source: Seq<char>,
    text: Seq<char>,
    raw: Seq<char>,
    url_safe: bool,
    text_size: usize,
    raw_size: usize,
)
    requires
        has_text(text, "vless://"@),
        without_white_space(raw) == base64_text(encode_utf8(text), url_safe),
    ensures
        ({
            let plain = harvested(
                h,
                source,
                text_size,
                readable_text(lossy_text(encode_utf8(text))),
            );
            let encoded = harvested(
                h,
                source,
                raw_size,
                readable_text(lossy_text(encode_utf8(raw))),
            );
            &&& plain.nodes == encoded.nodes
            &&& plain.fingerprints == encoded.fingerprints
            &&& plain.stats[source].lines == encoded.stats[source].lines
            &&& plain.stats[source].unique == encoded.stats[source].unique
        }),
{
    encode_utf8_valid_utf8(text);
    encode_utf8_decode_utf8(text);
    law_encoded_download(raw, text, url_safe);
}

/// A line that is not blank is either counted as a usable node or has a notice, and not both.
pub proof fn law_each_line_is_accounted_for(lines: Seq<Seq<char>>)
    ensures
        usable_lines(lines).len() + rejection_notices(lines).len() == lines.filter(
            |line: Seq<char>| trimmed(line).len() > 0,
        ).len(),
    decreases lines.len(),
{
    reveal(Seq::filter);
    if lines.len() > 0 {
        law_each_line_is_accounted_for(lines.drop_last());
    }
}

/// The list of sources holds each entry of the file once, without outer white space, and no
/// empty ones.
pub proof fn law_sources(lines: Seq<Seq<char>>, entry: Seq<char>)
    ensures
        distinct_entries(lines).no_duplicates(),
        distinct_entries(lines).contains(entry) <==> entry.len() > 0 && exists|i: int|
            0 <= i < lines.len() && trimmed(#[trigger] lines[i]) == entry,
    decreases lines.len(),
{
    if lines.len() > 0 {
        let front = lines.drop_last();
        let last = trimmed(lines.last());
        let before = distinct_entries(front);
        law_sources(front, entry);
        law_sources(front, last);
        let all = distinct_entries(lines);
        if exists|i: int| 0 <= i < lines.len() && trimmed(#[trigger] lines[i]) == entry {
            let i = choose|i: int| 0 <= i < lines.len() && trimmed(#[trigger] lines[i]) == entry;
            if i < front.len() {
                assert(front[i] == lines[i]);
            }
        }
        if exists|i: int| 0 <= i < front.len() && trimmed(#[trigger] front[i]) == entry {
            let i = choose|i: int| 0 <= i < front.len() && trimmed(#[trigger] front[i]) == entry;
            assert(lines[i] == front[i]);
        }
        assert(lines[lines.len() - 1] == lines.last());
        if all.len() > before.len() {
            assert(all[all.len() - 1] == last);
            assert forall|k: int| 0 <= k < before.len() implies all[k] == before[k] by {}
            if before.contains(entry) {
                let k = choose|k: int| 0 <= k < before.len() && before[k] == entry;
                assert(all[k] == entry);
            }
            if all.contains(entry) && entry != last {
                let k = choose|k: int| 0 <= k < all.len() && all[k] == entry;
                assert(before[k] == entry);
            }
        }
    }
}

} // verus!
