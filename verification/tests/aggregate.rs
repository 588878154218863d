use contelemetry::aggregate::{
    aggregate, aggregate_snapshot, aggregate_table, comes_before, decode_snapshot, group_code,
    totals, AggregateRow, Entry, GroupBy, Part, Report, SnapshotError, SortKey,
};
use contelemetry::table::{MapTable, RawEntry};
use contelemetry::record::{DecodeError, SyscallKey, SyscallValue};
use contelemetry::report::Millis;

fn entry(tid: u32, nr: u64, count: u64, elapsed_ns: u64) -> Entry {
    Entry {
        key: SyscallKey::new(tid, nr),
        value: SyscallValue { count, elapsed_ns, enter_ns: 77 },
    }
}

fn raw(tid: u32, nr: u64, count: u64, elapsed_ns: u64) -> RawEntry {
    let e = entry(tid, nr, count, elapsed_ns);
    RawEntry { key: e.key.encode(), value: e.value.encode() }
}

fn row(code: u64, count: u128, elapsed_ns: u128) -> AggregateRow {
    AggregateRow { code, count, elapsed_ns }
}

fn permutations(items: &[Entry]) -> Vec<Vec<Entry>> {
    if items.len() <= 1 {
        return vec![items.to_vec()];
    }
    let mut all = Vec::new();
    for i in 0..items.len() {
        let mut rest = items.to_vec();
        let picked = rest.remove(i);
        for mut tail in permutations(&rest) {
            tail.insert(0, picked);
            all.push(tail);
        }
    }
    all
}

#[test]
fn two_threads_of_one_syscall_make_one_row() {
    let snapshot = vec![raw(1, 0, 3, 900), raw(2, 0, 1, 300)];
    let report = aggregate_snapshot(&snapshot, GroupBy::Syscall, SortKey::Count).unwrap();
    assert_eq!(report.rows, vec![row(0, 4, 1200)]);
    assert_eq!(report.total_count, 4);
    assert_eq!(report.total_elapsed_ns, 1200);
    let ms = report.rows[0].elapsed_ms();
    assert_eq!(ms, Millis { whole: 0, fraction_ns: 1200 });
    assert_eq!(ms.whole as f64 + ms.fraction_ns as f64 / 1e6, 0.0012);
}

#[test]
fn rows_are_ranked_by_count_descending() {
    let entries = vec![entry(1, 10, 5, 1), entry(1, 11, 9, 1), entry(1, 12, 2, 1)];
    let report = aggregate(&entries, GroupBy::Syscall, SortKey::Count);
    let codes: Vec<u64> = report.rows.iter().map(|r| r.code).collect();
    assert_eq!(codes, vec![11, 10, 12]);
    let counts: Vec<u128> = report.rows.iter().map(|r| r.count).collect();
    assert_eq!(counts, vec![9, 5, 2]);
}

#[test]
fn rows_are_ranked_by_elapsed_when_asked() {
    let entries = vec![entry(1, 10, 5, 30), entry(1, 11, 9, 10), entry(1, 12, 2, 20)];
    let report = aggregate(&entries, GroupBy::Syscall, SortKey::Elapsed);
    let codes: Vec<u64> = report.rows.iter().map(|r| r.code).collect();
    assert_eq!(codes, vec![10, 12, 11]);
}

#[test]
fn equal_totals_are_ranked_by_code() {
    let entries = vec![entry(1, 30, 4, 1), entry(1, 10, 4, 2), entry(1, 20, 4, 3), entry(1, 5, 9, 0)];
    let report = aggregate(&entries, GroupBy::Syscall, SortKey::Count);
    let codes: Vec<u64> = report.rows.iter().map(|r| r.code).collect();
    assert_eq!(codes, vec![5, 10, 20, 30]);
}

#[test]
fn empty_snapshot_gives_empty_report() {
    let report = aggregate(&Vec::new(), GroupBy::Syscall, SortKey::Count);
    assert_eq!(report, Report { rows: vec![], total_count: 0, total_elapsed_ns: 0 });
    assert_eq!(
        aggregate_snapshot(&Vec::new(), GroupBy::Thread, SortKey::Elapsed),
        Ok(Report { rows: vec![], total_count: 0, total_elapsed_ns: 0 })
    );
}

#[test]
fn grouping_by_thread_sums_across_syscalls() {
    let entries = vec![entry(7, 0, 1, 10), entry(8, 0, 2, 20), entry(7, 1, 4, 40)];
    let report = aggregate(&entries, GroupBy::Thread, SortKey::Count);
    assert_eq!(report.rows, vec![row(7, 5, 50), row(8, 2, 20)]);
    assert_eq!(report.total_count, 7);
    assert_eq!(report.total_elapsed_ns, 70);
    assert_eq!(group_code(&SyscallKey::new(7, 1), GroupBy::Thread), 7);
    assert_eq!(group_code(&SyscallKey::new(7, 1), GroupBy::Syscall), 1);
}

#[test]
fn sums_do_not_wrap() {
    let entries = vec![
        entry(1, 3, u64::MAX, u64::MAX),
        entry(2, 3, u64::MAX, 1),
        entry(3, 3, 2, u64::MAX),
    ];
    let report = aggregate(&entries, GroupBy::Syscall, SortKey::Count);
    let max = u64::MAX as u128;
    assert_eq!(report.rows, vec![row(3, 2 * max + 2, 2 * max + 1)]);
    assert_eq!(report.total_count, 2 * max + 2);
    assert_eq!(report.total_elapsed_ns, 2 * max + 1);
}

#[test]
fn every_order_of_the_entries_gives_the_same_report() {
    let entries = vec![
        entry(1, 0, 3, 900),
        entry(2, 0, 1, 300),
        entry(1, 1, 4, 100),
        entry(3, 2, 4, 700),
        entry(2, 1, 0, 0),
    ];
    for by in [GroupBy::Syscall, GroupBy::Thread] {
        for sort in [SortKey::Count, SortKey::Elapsed] {
            let expected = aggregate(&entries, by, sort);
            for order in permutations(&entries) {
                assert_eq!(aggregate(&order, by, sort), expected);
            }
        }
    }
    let by_count = aggregate(&entries, GroupBy::Syscall, SortKey::Count);
    assert_eq!(by_count.rows, vec![row(0, 4, 1200), row(1, 4, 100), row(2, 4, 700)]);
    let by_elapsed = aggregate(&entries, GroupBy::Syscall, SortKey::Elapsed);
    assert_eq!(by_elapsed.rows, vec![row(0, 4, 1200), row(2, 4, 700), row(1, 4, 100)]);
}

#[test]
fn totals_sum_every_entry() {
    let entries = vec![entry(1, 9, 1, 1), entry(1, 3, 1, 1), entry(2, 9, 1, 1)];
    assert_eq!(totals(&entries), (3, 3));
    assert_eq!(totals(&Vec::new()), (0, 0));
}

#[test]
fn ranking_order_of_two_rows() {
    assert!(comes_before(&row(2, 9, 0), &row(1, 5, 0), SortKey::Count));
    assert!(!comes_before(&row(1, 5, 0), &row(2, 9, 0), SortKey::Count));
    assert!(comes_before(&row(1, 5, 0), &row(2, 5, 7), SortKey::Count));
    assert!(!comes_before(&row(1, 5, 0), &row(1, 5, 0), SortKey::Count));
    assert!(comes_before(&row(2, 5, 7), &row(1, 5, 0), SortKey::Elapsed));
}

#[test]
fn sort_key_follows_the_switch() {
    assert_eq!(SortKey::from_flag(false), SortKey::Count);
    assert_eq!(SortKey::from_flag(true), SortKey::Elapsed);
}

#[test]
fn snapshot_is_decoded_entry_by_entry() {
    let snapshot = vec![raw(1, 2, 3, 4), raw(5, 6, 7, 8)];
    assert_eq!(decode_snapshot(&snapshot), Ok(vec![entry(1, 2, 3, 4), entry(5, 6, 7, 8)]));
}

#[test]
fn short_key_is_reported_with_its_position() {
    let mut snapshot = vec![raw(1, 2, 3, 4), raw(5, 6, 7, 8), raw(9, 9, 9, 9)];
    snapshot[1].key.pop();
    snapshot[2].value.pop();
    let expected = SnapshotError {
        index: 1,
        part: Part::Key,
        cause: DecodeError { expected: 16, actual: 15 },
    };
    assert_eq!(decode_snapshot(&snapshot), Err(expected));
    assert_eq!(aggregate_snapshot(&snapshot, GroupBy::Syscall, SortKey::Count), Err(expected));
}

#[test]
fn long_value_is_reported_with_its_position() {
    let mut snapshot = vec![raw(1, 2, 3, 4), raw(5, 6, 7, 8)];
    snapshot[0].value.push(0);
    let expected = SnapshotError {
        index: 0,
        part: Part::Value,
        cause: DecodeError { expected: 24, actual: 25 },
    };
    assert_eq!(aggregate_snapshot(&snapshot, GroupBy::Syscall, SortKey::Count), Err(expected));
}

#[test]
fn key_is_reported_before_value_of_the_same_entry() {
    let snapshot = vec![RawEntry { key: vec![], value: vec![] }];
    let error = decode_snapshot(&snapshot).unwrap_err();
    assert_eq!(error.part, Part::Key);
    assert_eq!(error.cause, DecodeError { expected: 16, actual: 0 });
}

#[test]
fn table_is_aggregated_like_its_snapshot() {
    let mut table = MapTable::new();
    for e in [raw(1, 0, 3, 900), raw(2, 0, 1, 300), raw(2, 1, 8, 10)] {
        table.update(&e.key, &e.value);
    }
    let report = aggregate_table(&table, GroupBy::Syscall, SortKey::Count).unwrap();
    assert_eq!(report.rows, vec![row(1, 8, 10), row(0, 4, 1200)]);
    assert_eq!(report.total_count, 12);
    assert_eq!(report.total_elapsed_ns, 1210);
    let overwritten = raw(2, 1, 1, 1);
    table.update(&overwritten.key, &overwritten.value);
    let report = aggregate_table(&table, GroupBy::Syscall, SortKey::Count).unwrap();
    assert_eq!(report.rows, vec![row(0, 4, 1200), row(1, 1, 1)]);
}

#[test]
fn table_with_a_short_value_has_no_report() {
    let mut table = MapTable::new();
    let good = raw(1, 0, 3, 900);
    table.update(&good.key, &good.value);
    table.update(&raw(2, 0, 0, 0).key, &[0u8; 8]);
    assert_eq!(
        aggregate_table(&table, GroupBy::Syscall, SortKey::Count),
        Err(SnapshotError {
            index: 1,
            part: Part::Value,
            cause: DecodeError { expected: 24, actual: 8 },
        })
    );
}
