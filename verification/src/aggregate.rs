//! Aggregation of one snapshot of the syscall counter table into ranked
//! per-group totals.
//!
//! The entries of the snapshot are grouped by a field of their key; counts
//! and elapsed times are summed per group and over all entries. The sums are
//! exact: they are held in 128 bits, which no snapshot can overflow. Groups
//! are ranked by the chosen total, largest first; groups with equal totals
//! are ranked by code, smallest first, so that the ranking of a snapshot is
//! the same in whatever order its entries were enumerated.

use vstd::prelude::*;
use crate::record::{
    DecodeError, SyscallKey, SyscallValue, length_mismatch, SYSCALL_KEY_SIZE, SYSCALL_VALUE_SIZE,
};
use crate::table::{views, MapTable, RawEntry};

verus! {

/// The field of the key by which entries are grouped.
#[derive(Clone, Copy, Debug, PartialEq, Eq)]
pub enum GroupBy {
    /// One group per syscall number.
    Syscall,
    /// One group per thread id.
    Thread,
}

/// The total by which groups are ranked.
#[derive(Clone, Copy, Debug, PartialEq, Eq)]
pub enum SortKey {
    /// By number of calls.
    Count,
    /// By elapsed time.
    Elapsed,
}

impl SortKey {
    /// The key chosen by the command-line switch for ranking by elapsed
    /// time.
    pub fn from_flag(by_elapsed: bool) -> (key: SortKey)
        ensures
            key == if by_elapsed {
                SortKey::Elapsed
            } else {
                SortKey::Count
            },
    {
        if by_elapsed {
            SortKey::Elapsed
        } else {
            SortKey::Count
        }
    }
}

/// One decoded entry of the table.
#[derive(Clone, Copy, Debug, PartialEq, Eq)]
pub struct Entry {
    pub key: SyscallKey,
    pub value: SyscallValue,
}

/// The totals of one group.
#[derive(Clone, Copy, Debug, PartialEq, Eq)]
pub struct AggregateRow {
    /// The value of the grouping field shared by the entries of the group.
    pub code: u64,
    /// Sum of the call counts of the group.
    pub count: u128,
    /// Sum of the elapsed times of the group, in nanoseconds.
    pub elapsed_ns: u128,
}

/// The ranked totals of a snapshot.
#[derive(Debug, PartialEq, Eq)]
pub struct Report {
    /// One row per group, best ranked first.
    pub rows: Vec<AggregateRow>,
    /// Sum of the call counts of all entries.
    pub total_count: u128,
    /// Sum of the elapsed times of all entries, in nanoseconds.
    pub total_elapsed_ns: u128,
}

/// The group that an entry with key `key` falls in.
pub open spec fn group_of(key: SyscallKey, by: GroupBy) -> u64 {
    match by {
        GroupBy::Syscall => key.syscall_nr,
        GroupBy::Thread => key.tid as u64,
    }
}

/// Sum of the call counts of the entries of group `code`.
pub open spec fn count_in(entries: Seq<Entry>, by: GroupBy, code: u64) -> nat
    decreases entries.len(),
{
    if entries.len() == 0 {
        0
    } else {
        count_in(entries.drop_last(), by, code) + if group_of(entries.last().key, by) == code {
            entries.last().value.count as nat
        } else {
            0
        }
    }
}

/// Sum of the elapsed times of the entries of group `code`.
pub open spec fn elapsed_in(entries: Seq<Entry>, by: GroupBy, code: u64) -> nat
    decreases entries.len(),
{
    if entries.len() == 0 {
        0
    } else {
        elapsed_in(entries.drop_last(), by, code) + if group_of(entries.last().key, by) == code {
            entries.last().value.elapsed_ns as nat
        } else {
            0
        }
    }
}

/// Sum of the call counts of all entries.
pub open spec fn count_of_all(entries: Seq<Entry>) -> nat
    decreases entries.len(),
{
    if entries.len() == 0 {
        0
    } else {
        count_of_all(entries.drop_last()) + entries.last().value.count as nat
    }
}

/// Sum of the elapsed times of all entries.
pub open spec fn elapsed_of_all(entries: Seq<Entry>) -> nat
    decreases entries.len(),
{
    if entries.len() == 0 {
        0
    } else {
        elapsed_of_all(entries.drop_last()) + entries.last().value.elapsed_ns as nat
    }
}

/// Whether some entry falls in group `code`.
pub open spec fn has_group(entries: Seq<Entry>, by: GroupBy, code: u64) -> bool {
    exists|i: int| 0 <= i < entries.len() && group_of(#[trigger] entries[i].key, by) == code
}

/// The row of group `code`.
pub open spec fn row_of(entries: Seq<Entry>, by: GroupBy, code: u64) -> AggregateRow {
    AggregateRow {
        code,
        count: count_in(entries, by, code) as u128,
        elapsed_ns: elapsed_in(entries, by, code) as u128,
    }
}

/// The total of `row` that `sort` ranks by.
pub open spec fn ranked_total(row: AggregateRow, sort: SortKey) -> u128 {
    match sort {
        SortKey::Count => row.count,
        SortKey::Elapsed => row.elapsed_ns,
    }
}

/// Whether `a` is ranked before `b`: by the larger total, and among equal
/// totals by the smaller code.
pub open spec fn ranks_before(a: AggregateRow, b: AggregateRow, sort: SortKey) -> bool {
    ranked_total(a, sort) > ranked_total(b, sort) || (ranked_total(a, sort) == ranked_total(
        b,
        sort,
    ) && a.code < b.code)
}

/// Whether every row of `rows` is ranked before the rows that follow it.
pub open spec fn ranked(rows: Seq<AggregateRow>, sort: SortKey) -> bool {
    forall|i: int, j: int| 0 <= i < j < rows.len() ==> ranks_before(rows[i], rows[j], sort)
}

/// Whether `rows` are the rows of the groups of `entries`: one row for each
/// group that has an entry, none for any other, each with the totals of its
/// group.
pub open spec fn rows_of_groups(rows: Seq<AggregateRow>, entries: Seq<Entry>, by: GroupBy) -> bool {
    &&& forall|i: int|
        0 <= i < rows.len() ==> has_group(entries, by, (#[trigger] rows[i]).code) && rows[i]
            == row_of(entries, by, rows[i].code)
    &&& forall|code: u64| #[trigger]
        has_group(entries, by, code) ==> exists|i: int|
            0 <= i < rows.len() && (#[trigger] rows[i]).code == code
}

/// Whether `rows` is the ranked report of `entries`.
pub open spec fn is_report(
    rows: Seq<AggregateRow>,
    entries: Seq<Entry>,
    by: GroupBy,
    sort: SortKey,
) -> bool {
    rows_of_groups(rows, entries, by) && ranked(rows, sort)
}

/// No sum over a snapshot exceeds its length times the largest counter.
pub proof fn lemma_sums_bounded(entries: Seq<Entry>, by: GroupBy, code: u64)
    ensures
        count_in(entries, by, code) <= count_of_all(entries) <= entries.len() * u64::MAX,
        elapsed_in(entries, by, code) <= elapsed_of_all(entries) <= entries.len() * u64::MAX,
    decreases entries.len(),
{
    if entries.len() > 0 {
        lemma_sums_bounded(entries.drop_last(), by, code);
    }
}

/// A group without an entry has zero totals.
pub proof fn lemma_absent_group_is_zero(entries: Seq<Entry>, by: GroupBy, code: u64)
    requires
        !has_group(entries, by, code),
    ensures
        count_in(entries, by, code) == 0,
        elapsed_in(entries, by, code) == 0,
    decreases entries.len(),
{
    if entries.len() > 0 {
        let shorter = entries.drop_last();
        assert(group_of(entries[entries.len() - 1].key, by) != code);
        assert forall|i: int| 0 <= i < shorter.len() implies group_of(
            #[trigger] shorter[i].key,
            by,
        ) != code by {
            assert(shorter[i] == entries[i]);
        }
        lemma_absent_group_is_zero(shorter, by, code);
    }
}

/// Whether no two rows of `rows` have the same code.
pub open spec fn distinct_codes(rows: Seq<AggregateRow>) -> bool {
    forall|i: int, j: int|
        0 <= i < rows.len() && 0 <= j < rows.len() && i != j ==> (#[trigger] rows[i]).code != (
        #[trigger] rows[j]).code
}

/// The groups of a snapshot are those of its earlier entries and that of its
/// last entry.
pub proof fn lemma_groups_of_longer(entries: Seq<Entry>, by: GroupBy, code: u64)
    requires
        entries.len() > 0,
    ensures
        has_group(entries, by, code) <==> has_group(entries.drop_last(), by, code) || group_of(
            entries.last().key,
            by,
        ) == code,
{
    let shorter = entries.drop_last();
    if has_group(entries, by, code) {
        let i = choose|i: int|
            0 <= i < entries.len() && group_of(#[trigger] entries[i].key, by) == code;
        if i < shorter.len() {
            assert(group_of(shorter[i].key, by) == code);
        }
    }
    if has_group(shorter, by, code) {
        let i = choose|i: int|
            0 <= i < shorter.len() && group_of(#[trigger] shorter[i].key, by) == code;
        assert(group_of(entries[i].key, by) == code);
    }
    if group_of(entries.last().key, by) == code {
        assert(group_of(entries[entries.len() - 1].key, by) == code);
    }
}

/// The group that an entry with key `key` falls in.
pub fn group_code(key: &SyscallKey, by: GroupBy) -> (code: u64)
    ensures
        code == group_of(*key, by),
{
    match by {
        GroupBy::Syscall => key.syscall_nr,
        GroupBy::Thread => key.tid as u64,
    }
}

/// Whether `a` is ranked before `b`.
pub fn comes_before(a: &AggregateRow, b: &AggregateRow, sort: SortKey) -> (before: bool)
    ensures
        before == ranks_before(*a, *b, sort),
{
    let (ta, tb): (u128, u128) = match sort {
        SortKey::Count => (a.count, b.count),
        SortKey::Elapsed => (a.elapsed_ns, b.elapsed_ns),
    };
    ta > tb || (ta == tb && a.code < b.code)
}

/// The position of the row with code `code`, if there is one.
fn position_of(rows: &Vec<AggregateRow>, code: u64) -> (at: Option<usize>)
    ensures
        match at {
            Some(j) => j < rows.len() && rows[j as int].code == code,
            None => forall|j: int| 0 <= j < rows.len() ==> (#[trigger] rows[j]).code != code,
        },
{
    let mut j: usize = 0;
    while j < rows.len()
        invariant
            j <= rows.len(),
            forall|k: int| 0 <= k < j ==> (#[trigger] rows[k]).code != code,
        decreases rows.len() - j,
    {
        if rows[j].code == code {
            return Some(j);
        }
        j += 1;
    }
    None
}

/// Sums the entries per group: one row for each group, in no particular
/// order.
fn tally(entries: &Vec<Entry>, by: GroupBy) -> (rows: Vec<AggregateRow>)
    ensures
        rows_of_groups(rows@, entries@, by),
        distinct_codes(rows@),
{
    let mut rows: Vec<AggregateRow> = Vec::new();
    let mut i: usize = 0;
    assert(entries@.take(0) =~= Seq::<Entry>::empty());
    while i < entries.len()
        invariant
            i <= entries.len(),
            rows_of_groups(rows@, entries@.take(i as int), by),
            distinct_codes(rows@),
        decreases entries.len() - i,
    {
        let entry = entries[i];
        let code = group_code(&entry.key, by);
        let ghost seen = entries@.take(i as int);
        let ghost longer = entries@.take(i as int + 1);
        let ghost before = rows@;
        proof {
            assert(longer.drop_last() =~= seen);
            assert(longer.last() == entry);
            lemma_sums_bounded(seen, by, code);
            assert forall|c: u64| #[trigger] has_group(longer, by, c) <==> has_group(seen, by, c)
                || code == c by {
                lemma_groups_of_longer(longer, by, c);
            }
        }
        match position_of(&rows, code) {
            Some(j) => {
                let row = rows[j];
                rows.set(
                    j,
                    AggregateRow {
                        code,
                        count: row.count + entry.value.count as u128,
                        elapsed_ns: row.elapsed_ns + entry.value.elapsed_ns as u128,
                    },
                );
                proof {
                    assert forall|k: int| 0 <= k < rows@.len() implies has_group(
                        longer,
                        by,
                        (#[trigger] rows@[k]).code,
                    ) && rows@[k] == row_of(longer, by, rows@[k].code) by {
                        assert(before[k].code == rows@[k].code);
                        lemma_sums_bounded(seen, by, before[k].code);
                        lemma_sums_bounded(longer, by, before[k].code);
                    }
                    assert forall|c: u64| #[trigger] has_group(longer, by, c) implies exists|
                        k: int,
                    |
                        0 <= k < rows@.len() && (#[trigger] rows@[k]).code == c by {
                        if c == code {
                            assert(rows@[j as int].code == c);
                        } else {
                            let k = choose|k: int|
                                0 <= k < before.len() && (#[trigger] before[k]).code == c;
                            assert(rows@[k].code == c);
                        }
                    }
                    assert forall|a: int, b: int|
                        0 <= a < rows@.len() && 0 <= b < rows@.len() && a != b implies (
                    #[trigger] rows@[a]).code != (#[trigger] rows@[b]).code by {
                        assert(before[a].code == rows@[a].code);
                        assert(before[b].code == rows@[b].code);
                    }
                }
            },
            None => {
                rows.push(
                    AggregateRow {
                        code,
                        count: entry.value.count as u128,
                        elapsed_ns: entry.value.elapsed_ns as u128,
                    },
                );
                proof {
                    if has_group(seen, by, code) {
                        let k = choose|k: int|
                            0 <= k < before.len() && (#[trigger] before[k]).code == code;
                        assert(false);
                    }
                    lemma_absent_group_is_zero(seen, by, code);
                    assert forall|k: int| 0 <= k < rows@.len() implies has_group(
                        longer,
                        by,
                        (#[trigger] rows@[k]).code,
                    ) && rows@[k] == row_of(longer, by, rows@[k].code) by {
                        if k < before.len() {
                            assert(before[k] == rows@[k]);
                            lemma_sums_bounded(seen, by, before[k].code);
                        }
                    }
                    assert forall|c: u64| #[trigger] has_group(longer, by, c) implies exists|
                        k: int,
                    |
                        0 <= k < rows@.len() && (#[trigger] rows@[k]).code == c by {
                        if c == code {
                            assert(rows@[before.len() as int].code == c);
                        } else {
                            let k = choose|k: int|
                                0 <= k < before.len() && (#[trigger] before[k]).code == c;
                            assert(rows@[k].code == c);
                        }
                    }
                    assert forall|a: int, b: int|
                        0 <= a < rows@.len() && 0 <= b < rows@.len() && a != b implies (
                    #[trigger] rows@[a]).code != (#[trigger] rows@[b]).code by {
                        if a < before.len() {
                            assert(before[a] == rows@[a]);
                        }
                        if b < before.len() {
                            assert(before[b] == rows@[b]);
                        }
                    }
                }
            },
        }
        i += 1;
    }
    assert(entries@.take(entries.len() as int) =~= entries@);
    rows
}

/// Puts rows with distinct codes in ranking order.
fn rank(rows: &Vec<AggregateRow>, sort: SortKey) -> (sorted: Vec<AggregateRow>)
    requires
        distinct_codes(rows@),
    ensures
        ranked(sorted@, sort),
        sorted@.to_multiset() == rows@.to_multiset(),
{
    let mut sorted: Vec<AggregateRow> = Vec::new();
    let mut k: usize = 0;
    assert(rows@.take(0) =~= Seq::<AggregateRow>::empty());
    while k < rows.len()
        invariant
            k <= rows.len(),
            distinct_codes(rows@),
            ranked(sorted@, sort),
            sorted@.to_multiset() == rows@.take(k as int).to_multiset(),
        decreases rows.len() - k,
    {
        let row = rows[k];
        let ghost before = sorted@;
        let mut p: usize = 0;
        while p < sorted.len() && comes_before(&sorted[p], &row, sort)
            invariant
                p <= sorted.len(),
                forall|q: int| 0 <= q < p ==> ranks_before(#[trigger] sorted@[q], row, sort),
            decreases sorted.len() - p,
        {
            p += 1;
        }
        proof {
            assert(rows@.take(k as int + 1) =~= rows@.take(k as int).push(row));
            assert forall|q: int| p <= q < before.len() implies ranks_before(
                row,
                #[trigger] before[q],
                sort,
            ) by {
                assert(before.contains(before[q]));
                vstd::seq_lib::to_multiset_contains(before, before[q]);
                vstd::seq_lib::to_multiset_contains(rows@.take(k as int), before[q]);
                let m = choose|m: int|
                    0 <= m < rows@.take(k as int).len() && rows@.take(k as int)[m] == before[q];
                assert(rows@[m].code != rows@[k as int].code);
                assert(!ranks_before(before[p as int], row, sort));
                if q > p {
                    assert(ranks_before(before[p as int], before[q], sort));
                }
            }
        }
        sorted.insert(p, row);
        proof {
            vstd::seq_lib::to_multiset_insert(before, p as int, row);
            vstd::seq_lib::to_multiset_build(rows@.take(k as int), row);
            assert(sorted@.to_multiset() =~= rows@.take(k as int + 1).to_multiset());
            assert forall|a: int, b: int| 0 <= a < b < sorted@.len() implies ranks_before(
                sorted@[a],
                sorted@[b],
                sort,
            ) by {
                if a < p {
                    assert(sorted@[a] == before[a]);
                } else if a > p {
                    assert(sorted@[a] == before[a - 1]);
                }
                if b < p {
                    assert(sorted@[b] == before[b]);
                } else if b > p {
                    assert(sorted@[b] == before[b - 1]);
                }
            }
        }
        k += 1;
    }
    assert(rows@.take(rows.len() as int) =~= rows@);
    sorted
}

/// Rows in another order are still the rows of the same groups.
pub proof fn lemma_rows_reordered(
    rows: Seq<AggregateRow>,
    sorted: Seq<AggregateRow>,
    entries: Seq<Entry>,
    by: GroupBy,
)
    requires
        rows_of_groups(rows, entries, by),
        sorted.to_multiset() == rows.to_multiset(),
    ensures
        rows_of_groups(sorted, entries, by),
{
    assert forall|i: int| 0 <= i < sorted.len() implies has_group(
        entries,
        by,
        (#[trigger] sorted[i]).code,
    ) && sorted[i] == row_of(entries, by, sorted[i].code) by {
        assert(sorted.contains(sorted[i]));
        vstd::seq_lib::to_multiset_contains(sorted, sorted[i]);
        vstd::seq_lib::to_multiset_contains(rows, sorted[i]);
        let m = choose|m: int| 0 <= m < rows.len() && rows[m] == sorted[i];
        assert(has_group(entries, by, rows[m].code));
    }
    assert forall|code: u64| #[trigger] has_group(entries, by, code) implies exists|i: int|
        0 <= i < sorted.len() && (#[trigger] sorted[i]).code == code by {
        let m = choose|m: int| 0 <= m < rows.len() && (#[trigger] rows[m]).code == code;
        assert(rows.contains(rows[m]));
        vstd::seq_lib::to_multiset_contains(rows, rows[m]);
        vstd::seq_lib::to_multiset_contains(sorted, rows[m]);
        let i = choose|i: int| 0 <= i < sorted.len() && sorted[i] == rows[m];
        assert(sorted[i].code == code);
    }
}

/// Sums the counters of all entries.
pub fn totals(entries: &Vec<Entry>) -> (sums: (u128, u128))
    ensures
        sums.0 == count_of_all(entries@),
        sums.1 == elapsed_of_all(entries@),
{
    let mut count: u128 = 0;
    let mut elapsed: u128 = 0;
    let mut i: usize = 0;
    assert(entries@.take(0) =~= Seq::<Entry>::empty());
    while i < entries.len()
        invariant
            i <= entries.len(),
            count == count_of_all(entries@.take(i as int)),
            elapsed == elapsed_of_all(entries@.take(i as int)),
        decreases entries.len() - i,
    {
        proof {
            let longer = entries@.take(i as int + 1);
            assert(longer.drop_last() =~= entries@.take(i as int));
            lemma_sums_bounded(entries@.take(i as int), GroupBy::Syscall, 0);
        }
        count = count + entries[i].value.count as u128;
        elapsed = elapsed + entries[i].value.elapsed_ns as u128;
        i += 1;
    }
    assert(entries@.take(entries.len() as int) =~= entries@);
    (count, elapsed)
}

/// The ranked report of a snapshot: one row per group with the sums of its
/// entries, ranked by `sort`, and the sums over all entries.
pub fn aggregate(entries: &Vec<Entry>, by: GroupBy, sort: SortKey) -> (report: Report)
    ensures
        is_report(report.rows@, entries@, by, sort),
        report.total_count == count_of_all(entries@),
        report.total_elapsed_ns == elapsed_of_all(entries@),
{
    let rows = tally(entries, by);
    let sorted = rank(&rows, sort);
    proof {
        lemma_rows_reordered(rows@, sorted@, entries@, by);
    }
    let (total_count, total_elapsed_ns) = totals(entries);
    Report { rows: sorted, total_count, total_elapsed_ns }
}

/// Taking one entry out of a snapshot takes its counters out of the sums of
/// its group and of the whole, and leaves the other groups as they were.
pub proof fn lemma_without_one_entry(entries: Seq<Entry>, at: int, by: GroupBy, code: u64)
    requires
        0 <= at < entries.len(),
    ensures
        count_in(entries, by, code) == count_in(entries.remove(at), by, code) + if group_of(
            entries[at].key,
            by,
        ) == code {
            entries[at].value.count as nat
        } else {
            0
        },
        elapsed_in(entries, by, code) == elapsed_in(entries.remove(at), by, code) + if group_of(
            entries[at].key,
            by,
        ) == code {
            entries[at].value.elapsed_ns as nat
        } else {
            0
        },
        count_of_all(entries) == count_of_all(entries.remove(at)) + entries[at].value.count,
        elapsed_of_all(entries) == elapsed_of_all(entries.remove(at))
            + entries[at].value.elapsed_ns,
        has_group(entries, by, code) <==> has_group(entries.remove(at), by, code) || group_of(
            entries[at].key,
            by,
        ) == code,
    decreases entries.len(),
{
    let rest = entries.remove(at);
    if at == entries.len() - 1 {
        assert(rest =~= entries.drop_last());
        lemma_groups_of_longer(entries, by, code);
    } else {
        assert(rest.drop_last() =~= entries.drop_last().remove(at));
        assert(rest.last() == entries.last());
        assert(entries.drop_last()[at] == entries[at]);
        lemma_without_one_entry(entries.drop_last(), at, by, code);
        lemma_groups_of_longer(entries, by, code);
        lemma_groups_of_longer(rest, by, code);
    }
}

/// The sums and the groups of a snapshot do not depend on the order of its
/// entries.
pub proof fn lemma_sums_ignore_order(first: Seq<Entry>, second: Seq<Entry>, by: GroupBy, code: u64)
    requires
        first.to_multiset() == second.to_multiset(),
    ensures
        count_in(first, by, code) == count_in(second, by, code),
        elapsed_in(first, by, code) == elapsed_in(second, by, code),
        count_of_all(first) == count_of_all(second),
        elapsed_of_all(first) == elapsed_of_all(second),
        has_group(first, by, code) == has_group(second, by, code),
    decreases first.len(),
{
    vstd::seq_lib::to_multiset_len(first);
    vstd::seq_lib::to_multiset_len(second);
    if first.len() == 0 {
        assert(!has_group(first, by, code));
        assert(!has_group(second, by, code));
    } else {
        let last = first.last();
        let shorter = first.drop_last();
        assert(first =~= shorter.push(last));
        vstd::seq_lib::to_multiset_build(shorter, last);
        vstd::seq_lib::to_multiset_contains(first, last);
        vstd::seq_lib::to_multiset_contains(second, last);
        assert(first.contains(last)) by {
            assert(first[first.len() - 1] == last);
        }
        let at = choose|at: int| 0 <= at < second.len() && second[at] == last;
        vstd::seq_lib::to_multiset_remove(second, at);
        assert(second.remove(at).to_multiset() =~= shorter.to_multiset());
        lemma_sums_ignore_order(shorter, second.remove(at), by, code);
        lemma_without_one_entry(second, at, by, code);
        lemma_groups_of_longer(first, by, code);
    }
}

/// Two rankings of the same rows are the same sequence.
pub proof fn lemma_ranking_is_unique(
    first: Seq<AggregateRow>,
    second: Seq<AggregateRow>,
    sort: SortKey,
)
    requires
        ranked(first, sort),
        ranked(second, sort),
        forall|row: AggregateRow| first.contains(row) <==> second.contains(row),
    ensures
        first == second,
    decreases first.len(),
{
    if first.len() == 0 {
        if second.len() > 0 {
            assert(second.contains(second[0]));
        }
        assert(first =~= second);
    } else {
        assert(first.contains(first[0]));
        let j = choose|j: int| 0 <= j < second.len() && second[j] == first[0];
        assert(second.contains(second[0]));
        let k = choose|k: int| 0 <= k < first.len() && first[k] == second[0];
        if j > 0 {
            assert(ranks_before(second[0], second[j], sort));
            if k > 0 {
                assert(ranks_before(first[0], first[k], sort));
            }
            assert(false);
        }
        let first_rest = first.drop_first();
        let second_rest = second.drop_first();
        assert forall|row: AggregateRow| first_rest.contains(row) <==> second_rest.contains(
            row,
        ) by {
            if first_rest.contains(row) {
                let i = choose|i: int| 0 <= i < first_rest.len() && first_rest[i] == row;
                assert(first[i + 1] == row);
                assert(ranks_before(first[0], first[i + 1], sort));
                assert(first.contains(row));
                let m = choose|m: int| 0 <= m < second.len() && second[m] == row;
                assert(m > 0);
                assert(second_rest[m - 1] == row);
            }
            if second_rest.contains(row) {
                let i = choose|i: int| 0 <= i < second_rest.len() && second_rest[i] == row;
                assert(second[i + 1] == row);
                assert(ranks_before(second[0], second[i + 1], sort));
                assert(second.contains(row));
                let m = choose|m: int| 0 <= m < first.len() && first[m] == row;
                assert(m > 0);
                assert(first_rest[m - 1] == row);
            }
        }
        assert forall|a: int, b: int| 0 <= a < b < first_rest.len() implies ranks_before(
            first_rest[a],
            first_rest[b],
            sort,
        ) by {
            assert(ranks_before(first[a + 1], first[b + 1], sort));
        }
        assert forall|a: int, b: int| 0 <= a < b < second_rest.len() implies ranks_before(
            second_rest[a],
            second_rest[b],
            sort,
        ) by {
            assert(ranks_before(second[a + 1], second[b + 1], sort));
        }
        lemma_ranking_is_unique(first_rest, second_rest, sort);
        assert(first =~= seq![first[0]] + first_rest);
        assert(second =~= seq![second[0]] + second_rest);
    }
}

/// A snapshot has one report, whatever the order of its entries: the
/// reports of two snapshots with the same entries, each entry as often in
/// one as in the other, have the same rows in the same order and the same
/// totals.
pub proof fn lemma_report_ignores_order(
    first_rows: Seq<AggregateRow>,
    second_rows: Seq<AggregateRow>,
    first: Seq<Entry>,
    second: Seq<Entry>,
    by: GroupBy,
    sort: SortKey,
)
    requires
        first.to_multiset() == second.to_multiset(),
        is_report(first_rows, first, by, sort),
        is_report(second_rows, second, by, sort),
    ensures
        first_rows == second_rows,
        first_rows.to_multiset() == second_rows.to_multiset(),
        count_of_all(first) == count_of_all(second),
        elapsed_of_all(first) == elapsed_of_all(second),
{
    lemma_sums_ignore_order(first, second, by, 0);
    assert forall|row: AggregateRow| first_rows.contains(row) <==> second_rows.contains(row) by {
        lemma_sums_ignore_order(first, second, by, row.code);
        if first_rows.contains(row) {
            let i = choose|i: int| 0 <= i < first_rows.len() && first_rows[i] == row;
            assert(has_group(first, by, first_rows[i].code));
            assert(has_group(second, by, row.code));
            let j = choose|j: int|
                0 <= j < second_rows.len() && (#[trigger] second_rows[j]).code == row.code;
            assert(second_rows[j] == row);
        }
        if second_rows.contains(row) {
            let i = choose|i: int| 0 <= i < second_rows.len() && second_rows[i] == row;
            assert(has_group(second, by, second_rows[i].code));
            assert(has_group(first, by, row.code));
            let j = choose|j: int|
                0 <= j < first_rows.len() && (#[trigger] first_rows[j]).code == row.code;
            assert(first_rows[j] == row);
        }
    }
    lemma_ranking_is_unique(first_rows, second_rows, sort);
}

/// The half of an entry that could not be decoded.
#[derive(Clone, Copy, Debug, PartialEq, Eq)]
pub enum Part {
    Key,
    Value,
}

/// The first entry of a snapshot that could not be decoded.
#[derive(Clone, Copy, Debug, PartialEq, Eq)]
pub struct SnapshotError {
    /// Position of the entry in the snapshot.
    pub index: usize,
    /// Which half of it has the wrong length.
    pub part: Part,
    /// The length that was expected and the one that was found.
    pub cause: DecodeError,
}

/// Whether both halves of the entry `raw`, key and value, have their
/// declared size.
pub open spec fn well_sized(raw: (Seq<u8>, Seq<u8>)) -> bool {
    raw.0.len() == SYSCALL_KEY_SIZE && raw.1.len() == SYSCALL_VALUE_SIZE
}

/// The entry that `raw`, key and value, spells.
pub open spec fn decoded(raw: (Seq<u8>, Seq<u8>)) -> Entry {
    Entry { key: SyscallKey::from_bytes(raw.0), value: SyscallValue::from_bytes(raw.1) }
}

/// The entries that a snapshot spells.
pub open spec fn decoded_all(raw: Seq<(Seq<u8>, Seq<u8>)>) -> Seq<Entry> {
    raw.map_values(|one: (Seq<u8>, Seq<u8>)| decoded(one))
}

/// What is reported of the entry `raw` at position `index` when it is not
/// well sized: its key if that has the wrong length, else its value.
pub open spec fn fault_of(raw: (Seq<u8>, Seq<u8>), index: usize) -> SnapshotError {
    if raw.0.len() != SYSCALL_KEY_SIZE {
        SnapshotError {
            index,
            part: Part::Key,
            cause: length_mismatch(SYSCALL_KEY_SIZE, raw.0.len()),
        }
    } else {
        SnapshotError {
            index,
            part: Part::Value,
            cause: length_mismatch(SYSCALL_VALUE_SIZE, raw.1.len()),
        }
    }
}

/// Whether `error` reports the first entry of `raw` that is not well sized.
pub open spec fn first_fault(raw: Seq<(Seq<u8>, Seq<u8>)>, error: SnapshotError) -> bool {
    &&& error.index < raw.len()
    &&& !well_sized(raw[error.index as int])
    &&& forall|j: int| 0 <= j < error.index ==> well_sized(#[trigger] raw[j])
    &&& error == fault_of(raw[error.index as int], error.index)
}

/// Whether every entry of `raw` is well sized.
pub open spec fn all_well_sized(raw: Seq<(Seq<u8>, Seq<u8>)>) -> bool {
    forall|j: int| 0 <= j < raw.len() ==> well_sized(#[trigger] raw[j])
}

/// Decodes every entry of a snapshot, or reports the first one whose key or
/// value has the wrong length.
pub fn decode_snapshot(raw: &Vec<RawEntry>) -> (result: Result<Vec<Entry>, SnapshotError>)
    ensures
        match result {
            Ok(entries) => all_well_sized(views(raw@)) && entries@ == decoded_all(views(raw@)),
            Err(error) => first_fault(views(raw@), error),
        },
{
    let mut entries: Vec<Entry> = Vec::new();
    let mut i: usize = 0;
    while i < raw.len()
        invariant
            i <= raw.len(),
            entries.len() == i,
            forall|j: int| 0 <= j < i ==> well_sized(#[trigger] views(raw@)[j]),
            forall|j: int| 0 <= j < i ==> entries@[j] == decoded(#[trigger] views(raw@)[j]),
        decreases raw.len() - i,
    {
        assert(views(raw@)[i as int] == raw@[i as int]@);
        let key = match SyscallKey::decode(raw[i].key.as_slice()) {
            Ok(key) => key,
            Err(cause) => {
                return Err(SnapshotError { index: i, part: Part::Key, cause });
            },
        };
        let value = match SyscallValue::decode(raw[i].value.as_slice()) {
            Ok(value) => value,
            Err(cause) => {
                return Err(SnapshotError { index: i, part: Part::Value, cause });
            },
        };
        entries.push(Entry { key, value });
        i += 1;
    }
    assert(entries@ =~= decoded_all(views(raw@)));
    Ok(entries)
}

/// The ranked report of a snapshot as it was read. A snapshot with an entry
/// of the wrong length has no report: the first such entry is reported.
pub fn aggregate_snapshot(raw: &Vec<RawEntry>, by: GroupBy, sort: SortKey) -> (result: Result<
    Report,
    SnapshotError,
>)
    ensures
        match result {
            Ok(report) => {
                &&& all_well_sized(views(raw@))
                &&& is_report(report.rows@, decoded_all(views(raw@)), by, sort)
                &&& report.total_count == count_of_all(decoded_all(views(raw@)))
                &&& report.total_elapsed_ns == elapsed_of_all(decoded_all(views(raw@)))
            },
            Err(error) => first_fault(views(raw@), error),
        },
{
    match decode_snapshot(raw) {
        Ok(entries) => Ok(aggregate(&entries, by, sort)),
        Err(error) => Err(error),
    }
}

/// The ranked report of the table `table`, made of all its entries in the
/// order of enumeration. A table with an entry of the wrong length has no
/// report: the first such entry is reported.
pub fn aggregate_table(table: &MapTable, by: GroupBy, sort: SortKey) -> (result: Result<
    Report,
    SnapshotError,
>)
    ensures
        match result {
            Ok(report) => {
                &&& all_well_sized(table@)
                &&& is_report(report.rows@, decoded_all(table@), by, sort)
                &&& report.total_count == count_of_all(decoded_all(table@))
                &&& report.total_elapsed_ns == elapsed_of_all(decoded_all(table@))
            },
            Err(error) => first_fault(table@, error),
        },
{
    aggregate_snapshot(table.entries(), by, sort)
}

} // verus!
