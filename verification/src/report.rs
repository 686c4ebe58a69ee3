//! The report on a harvest: a table of the sources and the totals.
use vstd::prelude::*;
use vstd::utf8::encode_utf8;

use crate::harvest::{harvested, law_record, one_node_each, usable_lines, HarvestView};
use crate::ledger::{sources, SourceStats};
use crate::order::{ints, lemma_ranking, outranks, places, rank, ranking, ranks};
use crate::text::{decimal, digit, line_texts, padded, repeated, texts};
use crate::text::{pad_right, repeat_char, to_decimal};

verus! {

/// One line of the report: a source, and what it gave.
pub type Row = (String, SourceStats);

/// The width of the first column where there are no sources.
pub const EMPTY_WIDTH: usize = 60;

/// How much wider than the first column the table is.
pub const OTHER_COLUMNS: usize = 35;

/// The bytes in a mebibyte.
pub const MEBIBYTE: u128 = 1_048_576;

/// The greater of two numbers.
pub open spec fn greater(a: nat, b: nat) -> nat {
    if a >= b {
        a
    } else {
        b
    }
}

/// The length of the longest text, in bytes.
pub open spec fn longest(list: Seq<Seq<char>>) -> nat
    decreases list.len(),
{
    if list.len() == 0 {
        0
    } else {
        greater(longest(list.drop_last()), encode_utf8(list.last()).len())
    }
}

/// The width of the first column.
pub open spec fn first_column(list: Seq<Seq<char>>) -> nat {
    if list.len() == 0 {
        EMPTY_WIDTH as nat
    } else {
        longest(list)
    }
}

/// Finds the width of the first column.
pub fn column_width(rows: &Vec<Row>) -> (width: usize)
    ensures
        width == first_column(sources(rows@)),
{
    if rows.len() == 0 {
        return EMPTY_WIDTH;
    }
    let ghost all = sources(rows@);
    let mut width: usize = 0;
    let mut i: usize = 0;
    while i < rows.len()
        invariant
            i <= rows.len(),
            all == sources(rows@),
            width == longest(all.take(i as int)),
        decreases rows.len() - i,
    {
        let len = rows[i].0.as_str().as_bytes().len();
        assert(all.take(i + 1).drop_last() =~= all.take(i as int));
        assert(all.take(i + 1).last() == rows@[i as int].0@);
        if len > width {
            width = len;
        }
        i += 1;
    }
    assert(all.take(i as int) =~= all);
    width
}

/// The number of usable lines in each row.
pub open spec fn line_counts(rows: Seq<Row>) -> Seq<int> {
    Seq::new(rows.len(), |i: int| rows[i].1.lines as int)
}

/// The rows from the most usable lines to the fewest.
pub open spec fn by_line_count(rows: Seq<Row>) -> Seq<Row> {
    let order = ranking(line_counts(rows));
    Seq::new(rows.len(), |i: int| rows[order[i]])
}

/// Whether two lists of rows say the same.
pub open spec fn same_rows(a: Seq<Row>, b: Seq<Row>) -> bool {
    a.len() == b.len() && forall|i: int|
        0 <= i < a.len() ==> (#[trigger] a[i]).0@ == b[i].0@ && a[i].1 == b[i].1
}

/// Sorts the rows by the number of usable lines, the most first.
pub fn sort_rows(rows: &Vec<Row>) -> (sorted: Vec<Row>)
    ensures
        same_rows(sorted@, by_line_count(rows@)),
{
    let mut keys: Vec<i128> = Vec::new();
    let mut i: usize = 0;
    while i < rows.len()
        invariant
            i <= rows.len(),
            keys@.len() == i,
            forall|j: int| 0 <= j < i ==> keys@[j] == rows@[j].1.lines,
        decreases rows.len() - i,
    {
        keys.push(rows[i].1.lines as i128);
        i += 1;
    }
    assert(ints(keys@) =~= line_counts(rows@));
    let order = rank(&keys);
    let ghost ranked = ranking(line_counts(rows@));
    let mut sorted: Vec<Row> = Vec::new();
    let mut k: usize = 0;
    while k < order.len()
        invariant
            k <= order.len(),
            order.len() == rows.len(),
            places(order@) == ranked,
            ranks(line_counts(rows@), ranked),
            sorted@.len() == k,
            forall|j: int|
                0 <= j < k ==> (#[trigger] sorted@[j]).0@ == rows@[ranked[j]].0@ && sorted@[j].1
                    == rows@[ranked[j]].1,
        decreases order.len() - k,
    {
        assert(ranked[k as int] == order@[k as int]);
        let row = &rows[order[k]];
        sorted.push((row.0.clone(), row.1));
        k += 1;
    }
    sorted
}

/// `numerator / denominator`, rounded to the nearest whole number, and to the even one where two
/// are as near.
pub open spec fn rounded(numerator: nat, denominator: nat) -> nat
    recommends
        denominator > 0,
{
    let whole = numerator / denominator;
    let rest = numerator % denominator;
    if 2 * rest > denominator || (2 * rest == denominator && whole % 2 == 1) {
        whole + 1
    } else {
        whole
    }
}

/// A number of hundredths with its two decimals.
pub open spec fn hundredths(n: nat) -> Seq<char> {
    decimal(n / 100) + "."@ + seq![digit((n / 10) % 10), digit(n % 10)]
}

/// A size in mebibytes, to two decimals.
pub open spec fn mebibytes(size: nat) -> Seq<char> {
    hundredths(rounded(100 * size, MEBIBYTE as nat))
}

/// Writes a size in mebibytes, to two decimals.
pub fn write_mebibytes(size: usize) -> (out: String)
    ensures
        out@ == mebibytes(size as nat),
{
    let numerator: u128 = 100 * (size as u128);
    let whole: u128 = numerator / MEBIBYTE;
    let rest: u128 = numerator % MEBIBYTE;
    let n: u128 = if 2 * rest > MEBIBYTE || (2 * rest == MEBIBYTE && whole % 2 == 1) {
        whole + 1
    } else {
        whole
    };
    assert(n == rounded(100 * size as nat, MEBIBYTE as nat));
    let mut out = to_decimal(n / 100);
    out.push('.');
    out.push((48u8 + ((n / 10) % 10) as u8) as char);
    out.push((48u8 + (n % 10) as u8) as char);
    proof {
        reveal_strlit(".");
    }
    assert(out@ =~= mebibytes(size as nat));
    out
}

/// Four columns, the first `width` wide.
pub open spec fn table_line(
    first: Seq<char>,
    second: Seq<char>,
    third: Seq<char>,
    fourth: Seq<char>,
    width: nat,
) -> Seq<char> {
    padded(first, width) + " | "@ + padded(second, 7) + " | "@ + padded(third, 10) + " | "@
        + padded(fourth, 7)
}

/// Writes four columns.
fn write_line(first: &str, second: &str, third: &str, fourth: &str, width: usize) -> (out: String)
    ensures
        out@ == table_line(first@, second@, third@, fourth@, width as nat),
{
    pad_right(first, width).concat(" | ").concat(pad_right(second, 7).as_str()).concat(
        " | ",
    ).concat(pad_right(third, 10).as_str()).concat(" | ").concat(pad_right(fourth, 7).as_str())
}

/// The line of a source.
pub open spec fn row_line(row: Row, width: nat) -> Seq<char> {
    table_line(
        row.0@,
        decimal(row.1.lines as nat),
        mebibytes(row.1.size as nat),
        decimal(row.1.unique as nat),
        width,
    )
}

/// The table: a heading and the sources, the one with the most usable lines first, between
/// rules.
pub open spec fn table(rows: Seq<Row>) -> Seq<Seq<char>> {
    let width = first_column(sources(rows));
    let sorted = by_line_count(rows);
    let rule = repeated('-', width + OTHER_COLUMNS as nat);
    seq![table_line("Source"@, "Lines"@, "Size (MB)"@, "Unique"@, width), rule] + Seq::new(
        sorted.len(),
        |i: int| row_line(sorted[i], width),
    ) + seq![rule]
}

/// Writes the table of a harvest.
pub fn write_table(rows: &Vec<Row>) -> (lines: Vec<String>)
    requires
        first_column(sources(rows@)) + OTHER_COLUMNS <= usize::MAX,
    ensures
        texts(lines@) == table(rows@),
{
    let width = column_width(rows);
    let sorted = sort_rows(rows);
    let rule = repeat_char('-', width + OTHER_COLUMNS);
    let mut lines: Vec<String> = Vec::new();
    lines.push(write_line("Source", "Lines", "Size (MB)", "Unique", width));
    lines.push(rule.clone());
    let ghost ranked = by_line_count(rows@);
    let ghost head = seq![
        table_line("Source"@, "Lines"@, "Size (MB)"@, "Unique"@, width as nat),
        rule@,
    ];
    let mut i: usize = 0;
    while i < sorted.len()
        invariant
            i <= sorted.len(),
            same_rows(sorted@, ranked),
            head.len() == 2,
            lines@.len() == 2 + i,
            lines@[0]@ == head[0],
            lines@[1]@ == head[1],
            forall|j: int|
                0 <= j < i ==> (#[trigger] lines@[2 + j])@ == row_line(ranked[j], width as nat),
        decreases sorted.len() - i,
    {
        let row = &sorted[i];
        assert(sorted@[i as int].0@ == ranked[i as int].0@);
        let count = to_decimal(row.1.lines as u128);
        let size = write_mebibytes(row.1.size);
        let unique = to_decimal(row.1.unique as u128);
        lines.push(
            write_line(row.0.as_str(), count.as_str(), size.as_str(), unique.as_str(), width),
        );
        i += 1;
    }
    lines.push(rule);
    proof {
        let want = table(rows@);
        assert(want.len() == lines@.len());
        assert forall|k: int| 0 <= k < lines@.len() implies texts(lines@)[k] == want[k] by {
            if 2 <= k < 2 + i {
                assert(lines@[2 + (k - 2)]@ == row_line(ranked[k - 2], width as nat));
            }
        }
        assert(texts(lines@) =~= want);
    }
    lines
}

/// The usable lines of all rows.
pub open spec fn total_lines(rows: Seq<Row>) -> nat
    decreases rows.len(),
{
    if rows.len() == 0 {
        0
    } else {
        total_lines(rows.drop_last()) + rows.last().1.lines as nat
    }
}

/// The new nodes of all rows.
pub open spec fn total_unique(rows: Seq<Row>) -> nat
    decreases rows.len(),
{
    if rows.len() == 0 {
        0
    } else {
        total_unique(rows.drop_last()) + rows.last().1.unique as nat
    }
}

/// Adds up the usable lines and the new nodes of all rows.
pub fn totals(rows: &Vec<Row>) -> (sums: (u128, u128))
    ensures
        sums.0 == total_lines(rows@),
        sums.1 == total_unique(rows@),
{
    let mut all_lines: u128 = 0;
    let mut all_unique: u128 = 0;
    let mut i: usize = 0;
    while i < rows.len()
        invariant
            i <= rows.len(),
            all_lines == total_lines(rows@.take(i as int)),
            all_unique == total_unique(rows@.take(i as int)),
            all_lines <= i * u64::MAX,
            all_unique <= i * u64::MAX,
        decreases rows.len() - i,
    {
        assert(rows@.take(i + 1).drop_last() =~= rows@.take(i as int));
        assert(rows@.take(i + 1).last() == rows@[i as int]);
        assert(i * u64::MAX + u64::MAX == (i + 1) * u64::MAX) by (nonlinear_arith);
        assert((i + 1) * u64::MAX <= u64::MAX * u64::MAX) by (nonlinear_arith)
            requires
                i + 1 <= u64::MAX,
        ;
        all_lines = all_lines + rows[i].1.lines as u128;
        all_unique = all_unique + rows[i].1.unique as u128;
        i += 1;
    }
    assert(rows@.take(i as int) =~= rows@);
    (all_lines, all_unique)
}

/// The new nodes that all sources together gave.
pub open spec fn unique_sum(stats: Map<Seq<char>, SourceStats>) -> nat
    decreases stats.dom().len(),
{
    if stats.dom().finite() && stats.dom().len() > 0 {
        let source = stats.dom().choose();
        stats[source].unique as nat + unique_sum(stats.remove(source))
    } else {
        0
    }
}

/// Any source can be counted first.
proof fn lemma_unique_sum(stats: Map<Seq<char>, SourceStats>, source: Seq<char>)
    requires
        stats.dom().finite(),
        stats.contains_key(source),
    ensures
        unique_sum(stats) == stats[source].unique + unique_sum(stats.remove(source)),
    decreases stats.dom().len(),
{
    let first = stats.dom().choose();
    assert(stats.dom().contains(source));
    assert(stats.dom().len() > 0);
    if first != source {
        let x = stats.remove(first);
        let y = stats.remove(source);
        assert(x.dom().len() < stats.dom().len());
        assert(y.dom().len() < stats.dom().len());
        lemma_unique_sum(x, source);
        lemma_unique_sum(y, first);
        assert(x.remove(source) =~= y.remove(first));
    }
}

/// A source that is new adds its new nodes.
pub proof fn lemma_unique_sum_insert(
    stats: Map<Seq<char>, SourceStats>,
    source: Seq<char>,
    given: SourceStats,
)
    requires
        stats.dom().finite(),
        !stats.contains_key(source),
    ensures
        unique_sum(stats.insert(source, given)) == unique_sum(stats) + given.unique,
{
    let more = stats.insert(source, given);
    lemma_unique_sum(more, source);
    assert(more.remove(source) =~= stats);
}

/// Writes the totals of a harvest.
pub fn write_totals(rows: &Vec<Row>) -> (line: String)
    ensures
        line@ == "Total nodes fetched: "@ + decimal(total_lines(rows@)) + " lines, "@ + decimal(
            total_unique(rows@),
        ) + " unique nodes globally."@,
{
    let (all_lines, all_unique) = totals(rows);
    "Total nodes fetched: ".to_owned().concat(to_decimal(all_lines).as_str()).concat(
        " lines, ",
    ).concat(to_decimal(all_unique).as_str()).concat(" unique nodes globally.")
}

/// The total of a list of records is the total of what it lists, in whichever order.
pub proof fn law_total_of_records(rows: Seq<Row>, stats: Map<Seq<char>, SourceStats>)
    requires
        sources(rows).no_duplicates(),
        sources(rows).to_set() == stats.dom(),
        forall|i: int| 0 <= i < rows.len() ==> stats[(#[trigger] rows[i]).0@] == rows[i].1,
    ensures
        total_unique(rows) == unique_sum(stats),
    decreases rows.len(),
{
    let all = sources(rows);
    all.lemma_cardinality_of_set();
    if rows.len() == 0 {
        assert(all.to_set() =~= Set::empty()) by {
            assert(all =~= Seq::empty());
        }
    } else {
        let front = rows.drop_last();
        let last = rows.last().0@;
        let rest = stats.remove(last);
        assert(all.last() == last);
        assert(sources(front) =~= all.drop_last());
        assert(all.to_set().contains(last)) by {
            assert(all[all.len() - 1] == last);
        }
        assert forall|s: Seq<char>| sources(front).to_set().contains(s) == rest.dom().contains(
            s,
        ) by {
            if sources(front).contains(s) {
                let i = choose|i: int| 0 <= i < front.len() && sources(front)[i] == s;
                assert(all[i] == s);
                assert(all.contains(s));
                assert(stats.dom().contains(s));
            }
            if rest.dom().contains(s) {
                assert(all.to_set().contains(s));
                let i = choose|i: int| 0 <= i < all.len() && all[i] == s;
                assert(sources(front)[i] == s);
            }
        }
        assert(sources(front).to_set() =~= rest.dom());
        assert forall|i: int| 0 <= i < front.len() implies rest[(#[trigger] front[i]).0@]
            == front[i].1 by {
            assert(front[i] == rows[i]);
            assert(all[i] != all[all.len() - 1]);
        }
        law_total_of_records(front, rest);
        assert(stats.dom().finite());
        lemma_unique_sum(stats, last);
        assert(rows[rows.len() - 1] == rows.last());
    }
}

/// The new nodes that the sources are credited with add up to the nodes of the harvest, as long
/// as each source is harvested once.
pub proof fn law_unique_counts_add_up(
    h: HarvestView,
    source: Seq<char>,
    size: usize,
    text: Seq<char>,
)
    requires
        one_node_each(h.fingerprints, h.nodes),
        h.nodes.finite(),
        h.stats.dom().finite(),
        unique_sum(h.stats) == h.nodes.len(),
        !h.stats.contains_key(source),
        usable_lines(line_texts(text)).len() <= usize::MAX,
    ensures
        unique_sum(harvested(h, source, size, text).stats) == harvested(
            h,
            source,
            size,
            text,
        ).nodes.len(),
        harvested(h, source, size, text).stats.dom().finite(),
{
    law_record(h, source, size, text);
    let after = harvested(h, source, size, text);
    lemma_unique_sum_insert(h.stats, source, after.stats[source]);
    assert(after.stats =~= h.stats.insert(source, after.stats[source]));
}

/// The table lists the sources by their usable lines, the most first.
pub proof fn law_most_lines_first(rows: Seq<Row>, i: int, j: int)
    requires
        0 <= i < j < rows.len(),
    ensures
        by_line_count(rows)[i].1.lines >= by_line_count(rows)[j].1.lines,
{
    lemma_ranking(line_counts(rows));
    let order = ranking(line_counts(rows));
    assert(outranks(line_counts(rows), order[i], order[j]));
}

} // verus!
