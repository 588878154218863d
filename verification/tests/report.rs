use contelemetry::aggregate::{aggregate, AggregateRow, Entry, GroupBy, SortKey};
use contelemetry::catalog::Catalog;
use contelemetry::options::{Options, DEFAULT_PERIOD_MS, POLL_TIMEOUT_MS};
use contelemetry::record::{DecodeError, FileHandle, SyscallKey, SyscallValue};
use contelemetry::report::{millis_string, table, table_header, table_row, Millis};
use contelemetry::resolver::{handle_request, scope_id, ScopeId, HANDLE_BYTES};
use contelemetry::sampler::DisplayMode;
use contelemetry::text::{
    decimal_text, digit_text, hexadecimal_text, missing, push_decimal, push_hexadecimal,
    push_left_aligned, push_right_aligned, push_run, push_zero_filled, signed_decimal_text,
};

fn row(code: u64, count: u128, elapsed_ns: u128) -> AggregateRow {
    AggregateRow { code, count, elapsed_ns }
}

#[test]
fn numbers_in_decimal() {
    assert_eq!(decimal_text(0), "0");
    assert_eq!(decimal_text(7), "7");
    assert_eq!(decimal_text(10), "10");
    assert_eq!(decimal_text(1_000_000), "1000000");
    assert_eq!(decimal_text(u64::MAX as u128), u64::MAX.to_string());
    assert_eq!(decimal_text(u128::MAX), u128::MAX.to_string());
    assert_eq!(signed_decimal_text(0), "0");
    assert_eq!(signed_decimal_text(-1), "-1");
    assert_eq!(signed_decimal_text(i32::MIN as i64), i32::MIN.to_string());
    assert_eq!(signed_decimal_text(i64::MIN), i64::MIN.to_string());
    assert_eq!(signed_decimal_text(i64::MAX), i64::MAX.to_string());
}

#[test]
fn numbers_in_hexadecimal() {
    assert_eq!(hexadecimal_text(0), "0");
    assert_eq!(hexadecimal_text(0xf), "f");
    assert_eq!(hexadecimal_text(0x10), "10");
    assert_eq!(hexadecimal_text(0xdead_beef), "deadbeef");
    assert_eq!(hexadecimal_text(u64::MAX as u128), "ffffffffffffffff");
    for d in 0..16u8 {
        assert_eq!(digit_text(d), format!("{:x}", d));
    }
}

#[test]
fn padding_counts_characters() {
    let mut out = String::from(">");
    push_right_aligned(&mut out, "ab", 5);
    push_left_aligned(&mut out, "cd", 4);
    push_zero_filled(&mut out, "7", 3);
    push_right_aligned(&mut out, "toolong", 3);
    push_left_aligned(&mut out, "\u{e9}\u{e9}", 3);
    push_run(&mut out, "-", 2);
    push_decimal(&mut out, 42);
    push_hexadecimal(&mut out, 255);
    assert_eq!(out, ">   abcd  007toolong\u{e9}\u{e9} --42ff");
    assert_eq!(missing("abc", 5), 2);
    assert_eq!(missing("abc", 3), 0);
    assert_eq!(missing("abc", 1), 0);
    assert_eq!(missing("\u{1f600}", 2), 1);
}

#[test]
fn nanoseconds_become_milliseconds_exactly() {
    assert_eq!(row(0, 0, 1200).elapsed_ms(), Millis { whole: 0, fraction_ns: 1200 });
    assert_eq!(row(0, 0, 0).elapsed_ms(), Millis { whole: 0, fraction_ns: 0 });
    assert_eq!(row(0, 0, 999_999).elapsed_ms(), Millis { whole: 0, fraction_ns: 999_999 });
    assert_eq!(row(0, 0, 1_000_000).elapsed_ms(), Millis { whole: 1, fraction_ns: 0 });
    assert_eq!(
        row(0, 0, 1_234_567_890).elapsed_ms(),
        Millis { whole: 1234, fraction_ns: 567_890 }
    );
    assert_eq!(millis_string(&Millis { whole: 0, fraction_ns: 1200 }), "0.001200");
    assert_eq!(millis_string(&Millis { whole: 1234, fraction_ns: 567_890 }), "1234.567890");
    assert_eq!(millis_string(&Millis { whole: 5, fraction_ns: 0 }), "5.000000");
    assert_eq!(millis_string(&Millis { whole: 0, fraction_ns: 1 }), "0.000001");
}

#[test]
fn table_header_is_aligned() {
    assert_eq!(
        table_header(),
        format!("{:16} {:>6} {:>11}", "SYSCALL", "COUNT", "ELAPSED(ms)")
    );
}

#[test]
fn table_row_is_aligned() {
    assert_eq!(table_row("read", &row(0, 4, 1200)), "read                  4    0.001200");
    assert_eq!(
        table_row("a_very_long_syscall_name", &row(0, 12_345_678, 98_765_432_100)),
        "a_very_long_syscall_name 12345678 98765.432100"
    );
    assert_eq!(
        table_row("write", &row(1, 123, 45_000_000)),
        format!("{:16} {:6} {:>11}", "write", 123, "45.000000")
    );
}

#[test]
fn table_names_rows_by_the_catalog() {
    let catalog = Catalog::load("foo\tbar\n0\tread\n1\twrite\n");
    let entries = vec![
        Entry { key: SyscallKey::new(1, 0), value: SyscallValue { count: 3, elapsed_ns: 900, enter_ns: 0 } },
        Entry { key: SyscallKey::new(2, 0), value: SyscallValue { count: 1, elapsed_ns: 300, enter_ns: 0 } },
        Entry { key: SyscallKey::new(2, 1), value: SyscallValue { count: 9, elapsed_ns: 5_000_000, enter_ns: 0 } },
        Entry { key: SyscallKey::new(2, 400), value: SyscallValue { count: 1, elapsed_ns: 1, enter_ns: 0 } },
    ];
    let report = aggregate(&entries, GroupBy::Syscall, SortKey::Count);
    assert_eq!(
        table(&report, &catalog),
        vec![
            "SYSCALL           COUNT ELAPSED(ms)",
            "write                 9    5.000000",
            "read                  4    0.001200",
            "unknown(400)          1    0.000001",
        ]
    );
}

#[test]
fn table_of_empty_report_is_the_header() {
    let report = aggregate(&Vec::new(), GroupBy::Syscall, SortKey::Count);
    assert_eq!(table(&report, &Catalog::new()), vec![table_header()]);
}

#[test]
fn scope_is_the_second_half_of_the_handle() {
    let handle = FileHandle { handle_bytes: 8, handle_type: 254, cgid: 0x1_0000_1234 };
    assert_eq!(scope_id(&handle.encode()), Ok(ScopeId { raw: 0x1_0000_1234 }));
    let mut bytes = vec![0xffu8; 8];
    bytes.extend_from_slice(&42u64.to_le_bytes());
    assert_eq!(scope_id(&bytes), Ok(ScopeId { raw: 42 }));
}

#[test]
fn handle_of_wrong_length_has_no_scope() {
    assert_eq!(scope_id(&[0u8; 8]), Err(DecodeError { expected: 16, actual: 8 }));
    assert_eq!(scope_id(&[0u8; 17]), Err(DecodeError { expected: 16, actual: 17 }));
    assert_eq!(scope_id(&[]), Err(DecodeError { expected: 16, actual: 0 }));
}

#[test]
fn request_has_room_for_eight_bytes() {
    let request = handle_request();
    assert_eq!(request, FileHandle { handle_bytes: HANDLE_BYTES, handle_type: 0, cgid: 0 });
    assert_eq!(request.encode(), vec![8, 0, 0, 0, 0, 0, 0, 0, 0, 0, 0, 0, 0, 0, 0, 0]);
}

#[test]
fn options_default_and_configuration() {
    let mut options = Options::new();
    assert_eq!(options.scope, None);
    assert_eq!(options.mode, DisplayMode::Bytes);
    assert_eq!(options.period_ms, DEFAULT_PERIOD_MS);
    assert_eq!(options.period_ms, 1000);
    assert_eq!(POLL_TIMEOUT_MS, 100);
    assert_eq!(options.sort, SortKey::Count);
    assert!(!options.failed_only);
    assert_eq!(options.targ_cgid(), 0);
    assert_eq!(options.targ_failed(), 0);
    options.scope = Some(ScopeId { raw: 77 });
    options.failed_only = true;
    assert_eq!(options.targ_cgid(), 77);
    assert_eq!(options.targ_failed(), 1);
}
