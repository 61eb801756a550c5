//! The report: which extensions are shown, in what order, and the total.

use crate::aggregate::{lists, rows, AggregateMap, Entry, Row};
use crate::order::{lemma_lex_total, lemma_lex_transitive, lex_less, text_less};
use crate::stats::Counts;
use vstd::prelude::*;

verus! {

/// Whether row `a` is shown before row `b`: the one with more tokens first,
/// and of two with equally many the one whose extension comes first.
pub open spec fn precedes(a: Row, b: Row) -> bool {
    a.counts.tokens > b.counts.tokens || (a.counts.tokens == b.counts.tokens && lex_less(
        a.extension,
        b.extension,
    ))
}

/// Whether each row is shown before all that follow it.
pub open spec fn in_order(lines: Seq<Row>) -> bool {
    forall|i: int, j: int| 0 <= i < j < lines.len() ==> precedes(lines[i], lines[j])
}

/// Whether `lines` is the report of the aggregate `m`: the extensions of `m`
/// that have at least one token, each with what `m` holds for it, in order.
pub open spec fn is_report_of(lines: Seq<Row>, m: Map<Seq<char>, Counts>) -> bool {
    &&& in_order(lines)
    &&& forall|i: int|
        0 <= i < lines.len() ==> {
            &&& m.dom().contains((#[trigger] lines[i]).extension)
            &&& m[lines[i].extension] == lines[i].counts
            &&& lines[i].counts.tokens > 0
        }
    &&& forall|key: Seq<char>|
        m.dom().contains(key) && m[key].tokens > 0 ==> exists|i: int|
            0 <= i < lines.len() && (#[trigger] lines[i]).extension == key
}

/// The field-wise sum of the counts of `lines`.
pub open spec fn sum_rows(lines: Seq<Row>) -> Counts
    decreases lines.len(),
{
    if lines.len() == 0 {
        Counts::zero()
    } else {
        sum_rows(lines.drop_last()).plus(lines.last().counts)
    }
}

/// The sums shown in the total line. They are wide enough for any report.
#[derive(Clone, Copy, Debug, PartialEq, Eq, Structural)]
pub struct Totals {
    pub token_count: u128,
    pub line_count: u128,
    pub file_count: u128,
}

impl View for Totals {
    type V = Counts;

    open spec fn view(&self) -> Counts {
        Counts {
            tokens: self.token_count as nat,
            lines: self.line_count as nat,
            files: self.file_count as nat,
        }
    }
}

/// What is reported: one line per extension shown, and the total where more
/// than one line is shown.
pub struct Report {
    pub lines: Vec<Entry>,
    pub total: Option<Totals>,
}

/// Of two rows with different extensions exactly one precedes the other, and
/// no row precedes itself.
pub proof fn lemma_precedes_total(a: Row, b: Row)
    ensures
        a.extension != b.extension ==> (precedes(a, b) <==> !precedes(b, a)),
        !precedes(a, a),
{
    lemma_lex_total(a.extension, b.extension);
    lemma_lex_total(a.extension, a.extension);
}

/// The order of rows is transitive.
pub proof fn lemma_precedes_transitive(a: Row, b: Row, c: Row)
    requires
        precedes(a, b),
        precedes(b, c),
    ensures
        precedes(a, c),
{
    if a.counts.tokens == b.counts.tokens && b.counts.tokens == c.counts.tokens {
        lemma_lex_transitive(a.extension, b.extension, c.extension);
    }
}

/// In a report the token counts never rise from one line to the next, no
/// line has zero tokens, and no extension is shown twice.
pub proof fn lemma_report_sorted(m: Map<Seq<char>, Counts>, lines: Seq<Row>)
    requires
        is_report_of(lines, m),
    ensures
        forall|i: int, j: int|
            0 <= i < j < lines.len() ==> lines[i].counts.tokens >= lines[j].counts.tokens,
        forall|i: int| 0 <= i < lines.len() ==> (#[trigger] lines[i]).counts.tokens > 0,
        forall|i: int, j: int| 0 <= i < j < lines.len() ==> lines[i].extension != lines[j].extension,
        forall|i: int, key: Seq<char>|
            #![trigger lines[i], m[key]]
            0 <= i < lines.len() && m.dom().contains(key) && m[key].tokens == 0
                ==> lines[i].extension != key,
{
    assert forall|i: int, j: int| 0 <= i < j < lines.len() implies lines[i].counts.tokens
        >= lines[j].counts.tokens && lines[i].extension != lines[j].extension by {
        assert(precedes(lines[i], lines[j]));
        lemma_precedes_total(lines[i], lines[j]);
        lemma_lex_total(lines[i].extension, lines[j].extension);
    }
}

/// An aggregate has one report only: the lines and their order are fixed by
/// what the aggregate holds, not by the order in which it was built.
pub proof fn lemma_report_unique(m: Map<Seq<char>, Counts>, one: Seq<Row>, other: Seq<Row>)
    requires
        is_report_of(one, m),
        is_report_of(other, m),
    ensures
        one == other,
    decreases one.len(),
{
    if one.len() == 0 {
        if other.len() > 0 {
            let key = other[0].extension;
            assert(m.dom().contains(key) && m[key].tokens > 0);
        }
        assert(one =~= other);
    } else {
        let first = one[0];
        assert(m.dom().contains(first.extension) && m[first.extension].tokens > 0);
        let j = choose|j: int| 0 <= j < other.len() && (#[trigger] other[j]).extension == first.extension;
        assert(other[j] == first);
        let head = other[0];
        assert(m.dom().contains(head.extension) && m[head.extension].tokens > 0);
        let i = choose|i: int| 0 <= i < one.len() && (#[trigger] one[i]).extension == head.extension;
        assert(one[i] == head);
        lemma_precedes_total(first, head);
        assert(j == 0) by {
            if j > 0 {
                assert(precedes(other[0], other[j]));
                if i > 0 {
                    assert(precedes(one[0], one[i]));
                }
            }
        }
        let rest = m.remove(first.extension);
        lemma_rest_is_report(m, one);
        lemma_rest_is_report(m, other);
        lemma_report_unique(rest, one.drop_first(), other.drop_first());
        assert(one =~= seq![first] + one.drop_first());
        assert(other =~= seq![first] + other.drop_first());
    }
}

/// Without its first line, a report is the report of the aggregate without
/// that line's extension.
proof fn lemma_rest_is_report(m: Map<Seq<char>, Counts>, lines: Seq<Row>)
    requires
        is_report_of(lines, m),
        lines.len() > 0,
    ensures
        is_report_of(lines.drop_first(), m.remove(lines[0].extension)),
{
    let first = lines[0];
    let rest = lines.drop_first();
    let fewer = m.remove(first.extension);
    assert forall|i: int, j: int| 0 <= i < j < rest.len() implies precedes(rest[i], rest[j]) by {
        assert(rest[i] == lines[i + 1] && rest[j] == lines[j + 1]);
    }
    assert forall|i: int| 0 <= i < rest.len() implies {
        &&& fewer.dom().contains((#[trigger] rest[i]).extension)
        &&& fewer[rest[i].extension] == rest[i].counts
        &&& rest[i].counts.tokens > 0
    } by {
        assert(rest[i] == lines[i + 1]);
        assert(precedes(lines[0], lines[i + 1]));
        lemma_precedes_total(first, first);
        if rest[i].extension == first.extension {
            assert(rest[i] == first);
        }
    }
    assert forall|key: Seq<char>| fewer.dom().contains(key) && fewer[key].tokens > 0 implies exists|
        i: int,
    |
        0 <= i < rest.len() && (#[trigger] rest[i]).extension == key by {
        let at = choose|at: int| 0 <= at < lines.len() && (#[trigger] lines[at]).extension == key;
        assert(rest[at - 1] == lines[at]);
    }
}

/// Putting a row in where all before it precede it, and it precedes all
/// after it, keeps the order.
proof fn lemma_insert_keeps_order(lines: Seq<Row>, slot: int, row: Row)
    requires
        in_order(lines),
        0 <= slot <= lines.len(),
        forall|i: int| 0 <= i < slot ==> precedes(#[trigger] lines[i], row),
        forall|i: int| slot <= i < lines.len() ==> precedes(row, #[trigger] lines[i]),
    ensures
        in_order(lines.insert(slot, row)),
{
    let longer = lines.insert(slot, row);
    assert forall|i: int, j: int| 0 <= i < j < longer.len() implies precedes(
        longer[i],
        longer[j],
    ) by {
        if i < slot {
            assert(longer[i] == lines[i]);
        } else if i > slot {
            assert(longer[i] == lines[i - 1]);
        }
        if j < slot {
            assert(longer[j] == lines[j]);
        } else if j > slot {
            assert(longer[j] == lines[j - 1]);
        }
    }
}

/// Whether `row` is one of the first `upto` entries.
spec fn taken_from(entries: Seq<Entry>, upto: int, row: Row) -> bool {
    exists|k: int| 0 <= k < upto && (#[trigger] entries[k])@ == row
}

/// Whether `row` is among `lines`.
spec fn shown_in(lines: Seq<Entry>, row: Row) -> bool {
    exists|j: int| 0 <= j < lines.len() && (#[trigger] lines[j])@ == row
}

/// Tells whether `a` is shown before `b`.
fn comes_before(a: &Entry, b: &Entry) -> (before: bool)
    ensures
        before == precedes(a@, b@),
{
    if a.stats.token_count != b.stats.token_count {
        a.stats.token_count > b.stats.token_count
    } else {
        text_less(a.extension.as_str(), b.extension.as_str())
    }
}

/// Finds where `entry` belongs among `lines`.
fn insertion_point(lines: &Vec<Entry>, entry: &Entry) -> (slot: usize)
    requires
        in_order(rows(lines@)),
        forall|i: int| 0 <= i < lines.len() ==> (#[trigger] lines[i]).extension@ != entry.extension@,
    ensures
        slot <= lines.len(),
        forall|i: int| 0 <= i < slot ==> precedes(#[trigger] rows(lines@)[i], entry@),
        forall|i: int| slot <= i < lines.len() ==> precedes(entry@, #[trigger] rows(lines@)[i]),
{
    let mut slot: usize = 0;
    while slot < lines.len()
        invariant
            slot <= lines.len(),
            in_order(rows(lines@)),
            forall|i: int|
                0 <= i < lines.len() ==> (#[trigger] lines[i]).extension@ != entry.extension@,
            forall|i: int| 0 <= i < slot ==> precedes(#[trigger] rows(lines@)[i], entry@),
        decreases lines.len() - slot,
    {
        if comes_before(entry, &lines[slot]) {
            assert forall|i: int| slot <= i < lines.len() implies precedes(
                entry@,
                #[trigger] rows(lines@)[i],
            ) by {
                if i > slot {
                    assert(precedes(rows(lines@)[slot as int], rows(lines@)[i]));
                    lemma_precedes_transitive(entry@, rows(lines@)[slot as int], rows(lines@)[i]);
                }
            }
            return slot;
        }
        proof {
            assert(lines[slot as int].extension@ != entry.extension@);
            lemma_precedes_total(entry@, rows(lines@)[slot as int]);
        }
        slot = slot + 1;
    }
    slot
}

/// Adds up the lines of a report.
fn sum_lines(lines: &Vec<Entry>) -> (totals: Totals)
    ensures
        totals@ == sum_rows(rows(lines@)),
{
    let mut totals = Totals { token_count: 0, line_count: 0, file_count: 0 };
    let mut at: usize = 0;
    while at < lines.len()
        invariant
            at <= lines.len(),
            totals@ == sum_rows(rows(lines@).take(at as int)),
            totals.token_count <= at * u64::MAX,
            totals.line_count <= at * u64::MAX,
            totals.file_count <= at * u64::MAX,
        decreases lines.len() - at,
    {
        let stats = lines[at].stats;
        proof {
            let next = rows(lines@).take(at + 1);
            assert(next.drop_last() == rows(lines@).take(at as int));
            assert(next.last() == lines[at as int]@);
            assert((at + 1) * u64::MAX == at * u64::MAX + u64::MAX) by (nonlinear_arith);
            assert((at + 1) * u64::MAX <= u128::MAX) by (nonlinear_arith)
                requires
                    at + 1 <= u64::MAX,
            ;
        }
        totals = Totals {
            token_count: totals.token_count + stats.token_count as u128,
            line_count: totals.line_count + stats.line_count as u128,
            file_count: totals.file_count + stats.file_count as u128,
        };
        at = at + 1;
    }
    assert(rows(lines@).take(at as int) == rows(lines@));
    totals
}

/// Builds the report of an aggregate: the extensions with at least one token,
/// by falling token count, ties by extension; and their total where more than
/// one extension is shown.
pub fn report(map: &AggregateMap) -> (report: Report)
    ensures
        is_report_of(rows(report.lines@), map@),
        report.total is Some <==> report.lines.len() > 1,
        report.total matches Some(totals) ==> totals@ == sum_rows(rows(report.lines@)),
{
    let entries = map.entries();
    let mut lines: Vec<Entry> = Vec::new();
    let mut at: usize = 0;
    while at < entries.len()
        invariant
            at <= entries.len(),
            lists(entries@, map@),
            in_order(rows(lines@)),
            forall|j: int|
                0 <= j < lines.len() ==> taken_from(entries@, at as int, (#[trigger] lines[j])@)
                    && lines[j].stats.token_count > 0,
            forall|k: int|
                0 <= k < at && (#[trigger] entries[k]).stats.token_count > 0 ==> shown_in(
                    lines@,
                    entries[k]@,
                ),
        decreases entries.len() - at,
    {
        let entry = &entries[at];
        if entry.stats.token_count > 0 {
            assert forall|i: int| 0 <= i < lines.len() implies (#[trigger] lines[i]).extension@
                != entry.extension@ by {
                let k = choose|k: int| 0 <= k < at && (#[trigger] entries[k])@ == lines[i]@;
                assert(entries[k].extension@ != entries[at as int].extension@);
            }
            let slot = insertion_point(&lines, entry);
            let ghost before = lines@;
            lines.insert(slot, Entry { extension: entry.extension.clone(), stats: entry.stats });
            proof {
                lemma_insert_keeps_order(rows(before), slot as int, entry@);
                assert(rows(lines@) =~= rows(before).insert(slot as int, entry@));
                assert forall|j: int| 0 <= j < lines.len() implies taken_from(
                    entries@,
                    at + 1,
                    (#[trigger] lines[j])@,
                ) && lines[j].stats.token_count > 0 by {
                    if j < slot {
                        assert(lines[j] == before[j]);
                        let k = choose|k: int| 0 <= k < at && (#[trigger] entries[k])@ == before[j]@;
                        assert(entries[k]@ == lines[j]@);
                    } else if j > slot {
                        assert(lines[j] == before[j - 1]);
                        let k = choose|k: int|
                            0 <= k < at && (#[trigger] entries[k])@ == before[j - 1]@;
                        assert(entries[k]@ == lines[j]@);
                    } else {
                        assert(entries[at as int]@ == lines[j]@);
                    }
                }
                assert forall|k: int|
                    0 <= k < at + 1 && (#[trigger] entries[k]).stats.token_count
                        > 0 implies shown_in(lines@, entries[k]@) by {
                    if k < at {
                        let j = choose|j: int|
                            0 <= j < before.len() && (#[trigger] before[j])@ == entries[k]@;
                        if j < slot {
                            assert(lines[j] == before[j]);
                        } else {
                            assert(lines[j + 1] == before[j]);
                        }
                    } else {
                        assert(lines[slot as int]@ == entries[k]@);
                    }
                }
            }
        }
        at = at + 1;
    }
    proof {
        let shown = rows(lines@);
        assert forall|i: int| 0 <= i < shown.len() implies {
            &&& map@.dom().contains((#[trigger] shown[i]).extension)
            &&& map@[shown[i].extension] == shown[i].counts
            &&& shown[i].counts.tokens > 0
        } by {
            let k = choose|k: int| 0 <= k < at && (#[trigger] entries[k])@ == lines[i]@;
            assert(map@.dom().contains(entries[k].extension@));
            assert(lines[i].stats.token_count > 0);
        }
        assert forall|key: Seq<char>|
            map@.dom().contains(key) && map@[key].tokens > 0 implies exists|i: int|
            0 <= i < shown.len() && (#[trigger] shown[i]).extension == key by {
            let k = choose|k: int| 0 <= k < entries.len() && #[trigger] entries[k].extension@ == key;
            assert(map@[entries[k].extension@] == entries[k].stats@);
            assert(entries[k].stats.token_count > 0);
            let j = choose|j: int| 0 <= j < lines.len() && (#[trigger] lines[j])@ == entries[k]@;
            assert(shown[j].extension == key);
        }
    }
    let total = if lines.len() > 1 {
        Some(sum_lines(&lines))
    } else {
        None
    };
    Report { lines, total }
}

} // verus!
