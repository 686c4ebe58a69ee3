//! The final lists: each node's line, the ranking by throughput, and the short list.
use vstd::prelude::*;
use vstd::utf8::{char_is_scalar, char_u32_cast, is_scalar};

use crate::encoding::{lower_case, lower_cased, upper_case, upper_cased};
use crate::encoding::{percent_decode, percent_decoded};
use crate::link::{fingerprint_of, opt_text, plain_head};
use crate::order::{ints, lemma_ranking, outranks, places, rank, ranking, ranks};
use crate::speed::Double;
use crate::text::{after_first, before_first, decimal, first_chars, has_text, joined, replaced};
use crate::text::{lemma_find_char, lemma_find_char_found};
use crate::text::{contains_text, join, remove_chars, replace_text, same_text, split_first};
use crate::text::{take_chars, texts, to_chars, to_decimal, trim, trimmed, without_chars};

verus! {

/// The name of a well-known provider that a lower-case text names.
pub open spec fn known_provider(lower: Seq<char>) -> Option<Seq<char>> {
    if has_text(lower, "digitalocean"@) {
        Some("DigitalOcean"@)
    } else if has_text(lower, "amazon"@) || has_text(lower, "aws"@) {
        Some("AWS"@)
    } else if has_text(lower, "google"@) {
        Some("Google Cloud"@)
    } else if has_text(lower, "microsoft"@) {
        Some("Azure"@)
    } else if has_text(lower, "hetzner"@) {
        Some("Hetzner"@)
    } else if has_text(lower, "ovh"@) {
        Some("OVH"@)
    } else if has_text(lower, "linode"@) {
        Some("Linode"@)
    } else if has_text(lower, "vultr"@) {
        Some("Vultr"@)
    } else if has_text(lower, "oracle"@) {
        Some("Oracle Cloud"@)
    } else {
        None
    }
}

/// A name without punctuation and company suffixes.
pub open spec fn without_suffixes(raw_name: Seq<char>) -> Seq<char> {
    let plain = without_chars(raw_name, ".,()"@);
    let a = replaced(plain, "LLC"@, ""@);
    let b = replaced(a, "Inc"@, ""@);
    let c = replaced(b, "Ltd"@, ""@);
    let d = replaced(c, "PJSC"@, ""@);
    let e = replaced(d, "Corporation"@, ""@);
    trimmed(e)
}

/// The short name of a provider, given its full name and that in lower case.
pub open spec fn short_name(raw_name: Seq<char>, lower: Seq<char>) -> Seq<char> {
    match known_provider(lower) {
        Some(name) => name,
        None => without_suffixes(raw_name),
    }
}

/// Finds a well-known provider.
fn find_known_provider(lower: &str) -> (name: Option<&'static str>)
    ensures
        match name {
            Some(n) => known_provider(lower@) == Some(n@),
            None => known_provider(lower@) is None,
        },
{
    if contains_text(lower, "digitalocean") {
        Some("DigitalOcean")
    } else if contains_text(lower, "amazon") || contains_text(lower, "aws") {
        Some("AWS")
    } else if contains_text(lower, "google") {
        Some("Google Cloud")
    } else if contains_text(lower, "microsoft") {
        Some("Azure")
    } else if contains_text(lower, "hetzner") {
        Some("Hetzner")
    } else if contains_text(lower, "ovh") {
        Some("OVH")
    } else if contains_text(lower, "linode") {
        Some("Linode")
    } else if contains_text(lower, "vultr") {
        Some("Vultr")
    } else if contains_text(lower, "oracle") {
        Some("Oracle Cloud")
    } else {
        None
    }
}

/// Shortens a provider's name, given that in lower case.
pub fn shorten_name(raw_name: &str, lower: &str) -> (name: String)
    ensures
        name@ == short_name(raw_name@, lower@),
{
    match find_known_provider(lower) {
        Some(name) => name.to_owned(),
        None => {
            proof {
                reveal_strlit("LLC");
                reveal_strlit("Inc");
                reveal_strlit("Ltd");
                reveal_strlit("PJSC");
                reveal_strlit("Corporation");
            }
            let plain = remove_chars(raw_name, ".,()");
            let a = replace_text(plain.as_str(), "LLC", "");
            let b = replace_text(a.as_str(), "Inc", "");
            let c = replace_text(b.as_str(), "Ltd", "");
            let d = replace_text(c.as_str(), "PJSC", "");
            let e = replace_text(d.as_str(), "Corporation", "");
            trim(e.as_str())
        },
    }
}

/// Shortens a provider's name: a well-known one to its usual name, any other by its punctuation
/// and company suffixes.
pub fn clean_provider_name(raw_name: &str) -> (name: String)
    ensures
        name@ == short_name(raw_name@, lower_cased(raw_name@)),
{
    let lower = lower_case(raw_name);
    shorten_name(raw_name, lower.as_str())
}

/// The code point of the regional indicator symbol for a capital letter, and of what lies as
/// far from any other character.
pub open spec fn symbol_code(c: char) -> u32 {
    (c as u32 + 0x1f1e6 - 65) as u32
}

/// The regional indicator symbols for the letters of a text. What has no symbol is left out.
pub open spec fn symbols(upper: Seq<char>) -> Seq<char>
    decreases upper.len(),
{
    if upper.len() == 0 {
        Seq::empty()
    } else {
        let before = symbols(upper.drop_last());
        if is_scalar(symbol_code(upper.last())) {
            before.push(symbol_code(upper.last()) as char)
        } else {
            before
        }
    }
}

/// Writes the regional indicator symbols for capital letters.
pub fn write_symbols(upper: &str) -> (flag: String)
    ensures
        flag@ == symbols(upper@),
{
    let chars = to_chars(upper);
    let mut flag = String::new();
    let mut i: usize = 0;
    while i < chars.len()
        invariant
            i <= chars.len(),
            chars@ == upper@,
            flag@ == symbols(upper@.take(i as int)),
        decreases chars.len() - i,
    {
        proof {
            char_is_scalar(chars@[i as int]);
        }
        let letter: u32 = chars[i] as u32;
        let code: u32 = letter + 0x1f1e6 - 65;
        assert(upper@.take(i + 1).drop_last() =~= upper@.take(i as int));
        assert(upper@.take(i + 1).last() == chars@[i as int]);
        assert(code == symbol_code(chars@[i as int]));
        match std::char::from_u32(code) {
            Some(c) => {
                proof {
                    char_u32_cast(c, code);
                }
                flag.push(c);
            },
            None => {},
        }
        i += 1;
    }
    assert(upper@.take(i as int) =~= upper@);
    flag
}

/// The flag of a country, as the regional indicator symbols for its code.
pub fn get_flag_emoji(code: &str) -> (flag: String)
    ensures
        flag@ == symbols(upper_cased(code@)),
{
    let upper = upper_case(code);
    write_symbols(upper.as_str())
}

/// What the databases say of an address.
#[derive(Debug)]
pub struct Location {
    /// The ISO code of the country, where it is known.
    pub country: Option<String>,
    /// The organisation that runs the network, where it is known.
    pub organization: Option<String>,
}

/// What stands for a country that is not known.
pub const UNKNOWN_COUNTRY: &'static str = "XX";

/// What stands for a provider that is not known.
pub const UNKNOWN_PROVIDER: &'static str = "Unknown";

/// The code of a country.
pub open spec fn country_code(country: Option<Seq<char>>) -> Seq<char> {
    match country {
        Some(code) => code,
        None => UNKNOWN_COUNTRY@,
    }
}

/// The short name of the provider.
pub open spec fn provider_of(organization: Option<Seq<char>>) -> Seq<char> {
    match organization {
        Some(name) => short_name(name, lower_cased(name)),
        None => UNKNOWN_PROVIDER@,
    }
}

/// How many characters of a name are shown.
pub const NAME_LENGTH: usize = 30;

/// The name that a node was published under: decoded, without brackets and bars, and cut.
pub open spec fn published_name(raw_url: Seq<char>) -> Seq<char> {
    match after_first(raw_url, '#') {
        Some(part) => {
            let decoded = match percent_decoded(part) {
                Some(decoded) => decoded,
                None => ""@,
            };
            first_chars(trimmed(without_chars(decoded, "[]|"@)), NAME_LENGTH as nat)
        },
        None => "Unnamed"@,
    }
}

/// The line of a node, given its country, the country's flag and its provider.
pub open spec fn entry_line(
    raw_url: Seq<char>,
    speed_text: Seq<char>,
    country: Seq<char>,
    flag: Seq<char>,
    provider: Seq<char>,
) -> Seq<char> {
    let base = before_first(raw_url, '#');
    if country != UNKNOWN_COUNTRY@ && provider != UNKNOWN_PROVIDER@ {
        base + "#"@ + flag + speed_text + "Mb | "@ + provider
    } else {
        base + "#🌐"@ + speed_text + "Mb | "@ + published_name(raw_url)
    }
}

/// Reads the name that a node was published under.
fn read_name(part: Option<String>) -> (name: String)
    ensures
        name@ == match opt_text(part) {
            Some(part) => {
                let decoded = match percent_decoded(part) {
                    Some(decoded) => decoded,
                    None => ""@,
                };
                first_chars(trimmed(without_chars(decoded, "[]|"@)), NAME_LENGTH as nat)
            },
            None => "Unnamed"@,
        },
{
    match part {
        Some(part) => {
            let decoded = match percent_decode(part.as_str()) {
                Some(decoded) => decoded,
                None => "".to_owned(),
            };
            let plain = remove_chars(decoded.as_str(), "[]|");
            take_chars(trim(plain.as_str()).as_str(), NAME_LENGTH)
        },
        None => "Unnamed".to_owned(),
    }
}

/// Writes the line of a node, given its country, the country's flag and its provider.
pub fn write_entry_line(
    raw_url: &str,
    speed_text: &str,
    country: &str,
    flag: &str,
    provider: &str,
) -> (line: String)
    ensures
        line@ == entry_line(raw_url@, speed_text@, country@, flag@, provider@),
{
    let (base, part) = split_first(raw_url, '#');
    let name = read_name(part);
    if !same_text(country, UNKNOWN_COUNTRY) && !same_text(provider, UNKNOWN_PROVIDER) {
        base.concat("#").concat(flag).concat(speed_text).concat("Mb | ").concat(provider)
    } else {
        base.concat("#🌐").concat(speed_text).concat("Mb | ").concat(name.as_str())
    }
}

/// A node in the final lists.
#[derive(Debug)]
pub struct Entry {
    /// Its line.
    pub line: String,
    /// Its throughput in Mbit/s.
    pub speed: Double,
    /// Its provider.
    pub provider: String,
}

/// What an `Entry` holds.
pub struct EntryView {
    pub line: Seq<char>,
    pub speed: Double,
    pub provider: Seq<char>,
}

impl View for Entry {
    type V = EntryView;

    open spec fn view(&self) -> EntryView {
        EntryView { line: self.line@, speed: self.speed, provider: self.provider@ }
    }
}

/// Makes the entry of a node from its throughput, which `speed_text` writes as a whole number,
/// and from what is known of its address.
pub fn make_entry(raw_url: &str, speed: Double, speed_text: &str, location: &Location) -> (entry:
    Entry)
    ensures
        entry.speed == speed,
        entry.provider@ == provider_of(opt_text(location.organization)),
        entry.line@ == entry_line(
            raw_url@,
            speed_text@,
            country_code(opt_text(location.country)),
            symbols(upper_cased(country_code(opt_text(location.country)))),
            provider_of(opt_text(location.organization)),
        ),
{
    let country: &str = match &location.country {
        Some(code) => code.as_str(),
        None => UNKNOWN_COUNTRY,
    };
    let provider = match &location.organization {
        Some(name) => clean_provider_name(name.as_str()),
        None => UNKNOWN_PROVIDER.to_owned(),
    };
    let flag = get_flag_emoji(country);
    let line = write_entry_line(raw_url, speed_text, country, flag.as_str(), provider.as_str());
    Entry { line, speed, provider }
}

/// What a list of entries holds.
pub open spec fn entry_views(entries: Seq<Entry>) -> Seq<EntryView> {
    Seq::new(entries.len(), |i: int| entries[i]@)
}

/// What ranks each entry.
pub open spec fn speed_keys(entries: Seq<EntryView>) -> Seq<int> {
    Seq::new(entries.len(), |i: int| entries[i].speed.total_key())
}

/// The entries from the fastest to the slowest, equally fast ones in the order given.
pub open spec fn fastest_first(entries: Seq<EntryView>) -> Seq<EntryView> {
    let order = ranking(speed_keys(entries));
    Seq::new(entries.len(), |i: int| entries[order[i]])
}

/// Sorts the entries by throughput.
pub fn sort_entries(entries: &Vec<Entry>) -> (sorted: Vec<Entry>)
    ensures
        entry_views(sorted@) == fastest_first(entry_views(entries@)),
{
    let ghost given = entry_views(entries@);
    let mut keys: Vec<i128> = Vec::new();
    let mut i: usize = 0;
    while i < entries.len()
        invariant
            i <= entries.len(),
            keys@.len() == i,
            forall|j: int| 0 <= j < i ==> keys@[j] == entries@[j].speed.total_key(),
        decreases entries.len() - i,
    {
        keys.push(entries[i].speed.by_total_order());
        i += 1;
    }
    assert(ints(keys@) =~= speed_keys(given));
    let order = rank(&keys);
    let ghost ranked = ranking(speed_keys(given));
    let mut sorted: Vec<Entry> = Vec::new();
    let mut k: usize = 0;
    while k < order.len()
        invariant
            k <= order.len(),
            given == entry_views(entries@),
            order.len() == entries.len(),
            places(order@) == ranked,
            ranks(speed_keys(given), ranked),
            sorted@.len() == k,
            forall|j: int| 0 <= j < k ==> (#[trigger] sorted@[j])@ == given[ranked[j]],
        decreases order.len() - k,
    {
        assert(ranked[k as int] == order@[k as int]);
        let entry = &entries[order[k]];
        sorted.push(
            Entry {
                line: entry.line.clone(),
                speed: entry.speed,
                provider: entry.provider.clone(),
            },
        );
        k += 1;
    }
    assert(entry_views(sorted@) =~= fastest_first(given));
    sorted
}

/// How many entries of a list have this provider.
pub open spec fn share(entries: Seq<EntryView>, provider: Seq<char>) -> nat
    decreases entries.len(),
{
    if entries.len() == 0 {
        0
    } else {
        share(entries.drop_last(), provider) + if entries.last().provider == provider {
            1nat
        } else {
            0nat
        }
    }
}

/// How many nodes of one provider the short list takes.
pub const MAX_PER_PROVIDER: usize = 50;

/// How many nodes the short list takes.
pub const MAX_SHORT_LIST: usize = 600;

/// The short list: the entries in their order, as long as there is room for them and for their
/// provider.
pub open spec fn short_list(entries: Seq<EntryView>) -> Seq<EntryView>
    decreases entries.len(),
{
    if entries.len() == 0 {
        Seq::empty()
    } else {
        let before = short_list(entries.drop_last());
        let entry = entries.last();
        if before.len() < MAX_SHORT_LIST && share(before, entry.provider) < MAX_PER_PROVIDER {
            before.push(entry)
        } else {
            before
        }
    }
}

/// How many of the entries at `places` have this provider.
fn count_share(entries: &Vec<Entry>, chosen: &Vec<usize>, provider: &str) -> (count: usize)
    requires
        forall|i: int| 0 <= i < chosen@.len() ==> (#[trigger] chosen@[i]) < entries@.len(),
    ensures
        count == share(at_places(entry_views(entries@), chosen@), provider@),
{
    let ghost list = at_places(entry_views(entries@), chosen@);
    let mut count: usize = 0;
    let mut i: usize = 0;
    while i < chosen.len()
        invariant
            i <= chosen.len(),
            count <= i,
            list == at_places(entry_views(entries@), chosen@),
            forall|i: int| 0 <= i < chosen@.len() ==> (#[trigger] chosen@[i]) < entries@.len(),
            count == share(list.take(i as int), provider@),
        decreases chosen.len() - i,
    {
        assert(list.take(i + 1).drop_last() =~= list.take(i as int));
        assert(list.take(i + 1).last() == entries@[chosen@[i as int] as int]@);
        if same_text(entries[chosen[i]].provider.as_str(), provider) {
            count += 1;
        }
        i += 1;
    }
    assert(list.take(i as int) =~= list);
    count
}

/// The entries at the given places.
spec fn at_places(entries: Seq<EntryView>, chosen: Seq<usize>) -> Seq<EntryView> {
    Seq::new(chosen.len(), |i: int| entries[chosen[i] as int])
}

/// Picks the short list: the places of its entries.
fn pick_short_list(entries: &Vec<Entry>) -> (chosen: Vec<usize>)
    ensures
        forall|i: int| 0 <= i < chosen@.len() ==> (#[trigger] chosen@[i]) < entries@.len(),
        at_places(entry_views(entries@), chosen@) == short_list(entry_views(entries@)),
{
    let ghost all = entry_views(entries@);
    let mut chosen: Vec<usize> = Vec::new();
    let mut i: usize = 0;
    assert(at_places(all, chosen@) =~= Seq::empty());
    assert(all.take(0) =~= Seq::empty());
    while i < entries.len()
        invariant
            i <= entries.len(),
            all == entry_views(entries@),
            forall|k: int| 0 <= k < chosen@.len() ==> (#[trigger] chosen@[k]) < entries@.len(),
            at_places(all, chosen@) == short_list(all.take(i as int)),
        decreases entries.len() - i,
    {
        assert(all.take(i + 1).drop_last() =~= all.take(i as int));
        assert(all.take(i + 1).last() == entries@[i as int]@);
        let ghost before = at_places(all, chosen@);
        if chosen.len() < MAX_SHORT_LIST && count_share(
            entries,
            &chosen,
            entries[i].provider.as_str(),
        ) < MAX_PER_PROVIDER {
            chosen.push(i);
            assert(at_places(all, chosen@) =~= before.push(all[i as int]));
        }
        i += 1;
    }
    assert(all.take(i as int) =~= all);
    chosen
}

/// The lines of entries.
pub open spec fn entry_lines(entries: Seq<EntryView>) -> Seq<Seq<char>> {
    Seq::new(entries.len(), |i: int| entries[i].line)
}

/// The texts of the two final lists, and how many entries each has.
#[derive(Debug)]
pub struct FinalLists {
    /// All entries, one on each line, the fastest first.
    pub full: String,
    /// The short list, one on each line, the fastest first.
    pub short: String,
    /// The number of entries.
    pub full_count: usize,
    /// The number of entries in the short list.
    pub short_count: usize,
}

/// Writes the final lists.
pub fn write_lists(entries: &Vec<Entry>) -> (lists: FinalLists)
    ensures
        ({
            let sorted = fastest_first(entry_views(entries@));
            &&& lists.full@ == joined(entry_lines(sorted), "\n"@)
            &&& lists.short@ == joined(entry_lines(short_list(sorted)), "\n"@)
            &&& lists.full_count == entries@.len()
            &&& lists.short_count == short_list(sorted).len()
        }),
{
    let sorted = sort_entries(entries);
    let ghost all = entry_views(sorted@);
    let mut full: Vec<String> = Vec::new();
    let mut i: usize = 0;
    while i < sorted.len()
        invariant
            i <= sorted.len(),
            full@.len() == i,
            forall|j: int| 0 <= j < i ==> (#[trigger] full@[j])@ == sorted@[j].line@,
        decreases sorted.len() - i,
    {
        full.push(sorted[i].line.clone());
        i += 1;
    }
    assert(texts(full@) =~= entry_lines(all));
    let chosen = pick_short_list(&sorted);
    let mut short: Vec<String> = Vec::new();
    let mut k: usize = 0;
    while k < chosen.len()
        invariant
            k <= chosen.len(),
            forall|i: int| 0 <= i < chosen@.len() ==> (#[trigger] chosen@[i]) < sorted@.len(),
            short@.len() == k,
            forall|j: int|
                0 <= j < k ==> (#[trigger] short@[j])@ == sorted@[chosen@[j] as int].line@,
        decreases chosen.len() - k,
    {
        short.push(sorted[chosen[k]].line.clone());
        k += 1;
    }
    assert(texts(short@) =~= entry_lines(at_places(all, chosen@)));
    assert(all.len() == entries@.len());
    FinalLists {
        full: join(&full, "\n"),
        short: join(&short, "\n"),
        full_count: entries.len(),
        short_count: chosen.len(),
    }
}

/// Writes how many entries the final lists have.
pub fn write_summary(full_count: usize, short_count: usize) -> (line: String)
    ensures
        line@ == "Full list: "@ + decimal(full_count as nat) + " entries. Filtered list: "@
            + decimal(short_count as nat) + " entries."@,
{
    "Full list: ".to_owned().concat(to_decimal(full_count as u128).as_str()).concat(
        " entries. Filtered list: ",
    ).concat(to_decimal(short_count as u128).as_str()).concat(" entries.")
}

/// Writes the list of the nodes that answered a ping; there is nothing to write where none did.
pub fn write_ping_list(nodes: &Vec<String>) -> (list: Option<String>)
    ensures
        opt_text(list) == if nodes@.len() == 0 {
            None
        } else {
            Some(joined(texts(nodes@), "\n"@))
        },
{
    if nodes.len() == 0 {
        None
    } else {
        Some(join(nodes, "\n"))
    }
}

/// The full list goes from the fastest entry to the slowest, and those that are equally fast
/// keep the order in which they came in.
pub proof fn law_fastest_first(entries: Seq<EntryView>, i: int, j: int)
    requires
        0 <= i < j < entries.len(),
    ensures
        ({
            let order = ranking(speed_keys(entries));
            let a = fastest_first(entries)[i];
            let b = fastest_first(entries)[j];
            &&& 0 <= order[i] < entries.len() && 0 <= order[j] < entries.len()
            &&& a == entries[order[i]] && b == entries[order[j]]
            &&& a.speed.total_key() >= b.speed.total_key()
            &&& a.speed == b.speed ==> order[i] < order[j]
        }),
{
    lemma_ranking(speed_keys(entries));
    let order = ranking(speed_keys(entries));
    assert(outranks(speed_keys(entries), order[i], order[j]));
}

/// No entry is lost from the full list, and none is in it twice.
pub proof fn law_full_list_is_complete(entries: Seq<EntryView>, k: int)
    requires
        0 <= k < entries.len(),
    ensures
        exists|i: int|
            0 <= i < entries.len() && #[trigger] ranking(speed_keys(entries))[i] == k
                && fastest_first(entries)[i] == entries[k],
        forall|i: int, j: int|
            0 <= i < j < entries.len() ==> #[trigger] ranking(speed_keys(entries))[i]
                != #[trigger] ranking(speed_keys(entries))[j],
{
    let keys = speed_keys(entries);
    lemma_ranking(keys);
    let order = ranking(keys);
    assert(order.contains(k));
    let i = choose|i: int| 0 <= i < order.len() && order[i] == k;
    assert(order[i] == k && fastest_first(entries)[i] == entries[k]);
    assert forall|i: int, j: int| 0 <= i < j < entries.len() implies #[trigger] order[i]
        != #[trigger] order[j] by {
        assert(outranks(keys, order[i], order[j]));
    }
}

/// The short list is never longer than its limit, and no provider has more than its share.
pub proof fn law_short_list_limits(entries: Seq<EntryView>, provider: Seq<char>)
    ensures
        short_list(entries).len() <= MAX_SHORT_LIST,
        short_list(entries).len() <= entries.len(),
        share(short_list(entries), provider) <= MAX_PER_PROVIDER,
    decreases entries.len(),
{
    if entries.len() > 0 {
        law_short_list_limits(entries.drop_last(), provider);
        let before = short_list(entries.drop_last());
        assert(before.push(entries.last()).drop_last() =~= before);
    }
}

/// The places of the entries in the short list.
pub open spec fn short_places(entries: Seq<EntryView>) -> Seq<int>
    decreases entries.len(),
{
    if entries.len() == 0 {
        Seq::empty()
    } else {
        let before = short_places(entries.drop_last());
        if short_list(entries).len() > short_list(entries.drop_last()).len() {
            before.push(entries.len() - 1)
        } else {
            before
        }
    }
}

/// The short list holds entries of the full list in their order there, so that it too goes from
/// the fastest to the slowest.
pub proof fn law_short_list_keeps_order(entries: Seq<EntryView>)
    ensures
        short_places(entries).len() == short_list(entries).len(),
        forall|i: int|
            0 <= i < short_list(entries).len() ==> 0 <= #[trigger] short_places(entries)[i]
                < entries.len() && short_list(entries)[i] == entries[short_places(entries)[i]],
        forall|i: int, j: int|
            0 <= i < j < short_list(entries).len() ==> #[trigger] short_places(entries)[i]
                < #[trigger] short_places(entries)[j],
    decreases entries.len(),
{
    if entries.len() > 0 {
        let front = entries.drop_last();
        law_short_list_keeps_order(front);
        assert(forall|i: int| 0 <= i < front.len() ==> front[i] == entries[i]);
    }
}

/// An entry is left out of the short list only where the list, or its provider's share of it,
/// is filled by entries above it.
pub proof fn law_short_list_is_full(entries: Seq<EntryView>, k: int)
    requires
        0 <= k < entries.len(),
        !short_places(entries).contains(k),
    ensures
        short_list(entries.take(k)).len() == MAX_SHORT_LIST || share(
            short_list(entries.take(k)),
            entries[k].provider,
        ) == MAX_PER_PROVIDER,
    decreases entries.len(),
{
    let front = entries.drop_last();
    law_short_list_limits(entries.take(k), entries[k].provider);
    if k == entries.len() - 1 {
        assert(entries.take(k) =~= front);
        if short_list(entries).len() > short_list(front).len() {
            let places = short_places(entries);
            assert(places[places.len() - 1] == k);
        }
    } else {
        if short_places(front).contains(k) {
            let i = choose|i: int| 0 <= i < short_places(front).len() && short_places(front)[i] == k;
            assert(short_places(entries)[i] == k);
        }
        law_short_list_is_full(front, k);
        assert(front.take(k) =~= entries.take(k));
    }
}

/// The code of a country in capital letters becomes as many regional indicator symbols, one for
/// each letter.
pub proof fn law_flag(code: Seq<char>)
    requires
        forall|i: int| 0 <= i < code.len() ==> 'A' <= #[trigger] code[i] && code[i] <= 'Z',
    ensures
        symbols(code) == Seq::new(
            code.len(),
            |i: int| (0x1f1e6 + (code[i] as int - 'A' as int)) as char,
        ),
    decreases code.len(),
{
    let wanted = Seq::new(
        code.len(),
        |i: int| (0x1f1e6 + (code[i] as int - 'A' as int)) as char,
    );
    if code.len() > 0 {
        let front = code.drop_last();
        law_flag(front);
        assert(code[code.len() - 1] == code.last());
        assert(symbols(code) =~= wanted);
    } else {
        assert(symbols(code) =~= wanted);
    }
}

/// Under its new name a node is still the same link: what stands before the name is kept.
pub proof fn law_entry_keeps_link(
    raw_url: Seq<char>,
    speed_text: Seq<char>,
    country: Seq<char>,
    flag: Seq<char>,
    provider: Seq<char>,
)
    ensures
        ({
            let line = entry_line(raw_url, speed_text, country, flag, provider);
            &&& before_first(line, '#') == before_first(raw_url, '#')
            &&& after_first(line, '#') is Some
            &&& after_first(raw_url, '#') is Some || plain_head(before_first(raw_url, '#'))
                ==> fingerprint_of(line) == fingerprint_of(raw_url)
        }),
{
    let line = entry_line(raw_url, speed_text, country, flag, provider);
    let base = before_first(raw_url, '#');
    reveal_strlit("#");
    reveal_strlit("#🌐");
    lemma_find_char_found(raw_url, '#');
    assert(line.len() > base.len());
    assert(line[base.len() as int] == '#');
    assert forall|j: int| 0 <= j < base.len() implies line[j] != '#' by {
        assert(line[j] == raw_url[j]);
    }
    lemma_find_char(line, '#', base.len());
    assert(before_first(line, '#') =~= base);
}

} // verus!
