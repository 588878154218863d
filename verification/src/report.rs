//! The table written for a ranked report.
//!
//! The table has one line of titles and one line per row: the name of the
//! group, the number of calls and the elapsed time in milliseconds. Times
//! are written with six decimal places, which is exact for a whole number
//! of nanoseconds.

use vstd::prelude::*;
use vstd::string::StringExecFns;
use crate::aggregate::{AggregateRow, Report};
use crate::catalog::{shown, Catalog};
use crate::text::{
    decimal, decimal_text, left_aligned, push_decimal, push_left_aligned, push_right_aligned,
    push_zero_filled, right_aligned, zero_filled,
};

verus! {

/// Width of the name column.
pub const NAME_WIDTH: usize = 16;

/// Width of the count column.
pub const COUNT_WIDTH: usize = 6;

/// Width of the elapsed-time column.
pub const ELAPSED_WIDTH: usize = 11;

/// Nanoseconds in a millisecond.
pub const NS_PER_MS: u128 = 1_000_000;

/// Number of decimal places of a time in milliseconds.
pub const MS_DECIMALS: usize = 6;

/// A time in milliseconds, as whole milliseconds and the nanoseconds beyond
/// them.
#[derive(Clone, Copy, Debug, PartialEq, Eq)]
pub struct Millis {
    pub whole: u128,
    /// Less than a million.
    pub fraction_ns: u32,
}

/// `elapsed_ns` nanoseconds in milliseconds.
pub open spec fn millis_of(elapsed_ns: u128) -> Millis {
    Millis {
        whole: elapsed_ns / NS_PER_MS,
        fraction_ns: (elapsed_ns % NS_PER_MS) as u32,
    }
}

/// How a time in milliseconds is written: the whole part, a point, and six
/// decimal places.
pub open spec fn millis_text(time: Millis) -> Seq<char> {
    decimal(time.whole as nat) + "."@ + zero_filled(
        decimal(time.fraction_ns as nat),
        MS_DECIMALS as int,
    )
}

/// The line of column titles.
pub open spec fn table_header_text() -> Seq<char> {
    left_aligned("SYSCALL"@, NAME_WIDTH as int) + " "@ + right_aligned(
        "COUNT"@,
        COUNT_WIDTH as int,
    ) + " "@ + right_aligned("ELAPSED(ms)"@, ELAPSED_WIDTH as int)
}

/// The line of `row`, shown under the name `name`.
pub open spec fn table_row_text(name: Seq<char>, row: AggregateRow) -> Seq<char> {
    left_aligned(name, NAME_WIDTH as int) + " "@ + right_aligned(
        decimal(row.count as nat),
        COUNT_WIDTH as int,
    ) + " "@ + right_aligned(millis_text(millis_of(row.elapsed_ns)), ELAPSED_WIDTH as int)
}

/// Whether `lines` is the table of `rows` with the names of `names`: the
/// titles, then the line of each row in order.
pub open spec fn is_table(
    lines: Seq<String>,
    rows: Seq<AggregateRow>,
    names: Map<u64, Seq<char>>,
) -> bool {
    &&& lines.len() == rows.len() + 1
    &&& lines[0]@ == table_header_text()
    &&& forall|i: int|
        0 <= i < rows.len() ==> (#[trigger] lines[i + 1])@ == table_row_text(
            shown(names, rows[i].code),
            rows[i],
        )
}

impl AggregateRow {
    /// The elapsed time of the group in milliseconds.
    pub fn elapsed_ms(&self) -> (time: Millis)
        ensures
            time == millis_of(self.elapsed_ns),
            time.fraction_ns < NS_PER_MS,
            time.whole * NS_PER_MS + time.fraction_ns == self.elapsed_ns,
    {
        Millis {
            whole: self.elapsed_ns / NS_PER_MS,
            fraction_ns: (self.elapsed_ns % NS_PER_MS) as u32,
        }
    }
}

/// Writes a time in milliseconds.
pub fn millis_string(time: &Millis) -> (text: String)
    ensures
        text@ == millis_text(*time),
{
    let mut text = String::new();
    push_decimal(&mut text, time.whole);
    text.append(".");
    let fraction = decimal_text(time.fraction_ns as u128);
    push_zero_filled(&mut text, fraction.as_str(), MS_DECIMALS);
    assert(text@ =~= millis_text(*time));
    text
}

/// The line of column titles.
pub fn table_header() -> (line: String)
    ensures
        line@ == table_header_text(),
{
    let mut line = String::new();
    push_left_aligned(&mut line, "SYSCALL", NAME_WIDTH);
    line.append(" ");
    push_right_aligned(&mut line, "COUNT", COUNT_WIDTH);
    line.append(" ");
    push_right_aligned(&mut line, "ELAPSED(ms)", ELAPSED_WIDTH);
    assert(line@ =~= table_header_text());
    line
}

/// The line of `row`, shown under the name `name`.
pub fn table_row(name: &str, row: &AggregateRow) -> (line: String)
    ensures
        line@ == table_row_text(name@, *row),
{
    let count = decimal_text(row.count);
    let elapsed = millis_string(&row.elapsed_ms());
    let mut line = String::new();
    push_left_aligned(&mut line, name, NAME_WIDTH);
    line.append(" ");
    push_right_aligned(&mut line, count.as_str(), COUNT_WIDTH);
    line.append(" ");
    push_right_aligned(&mut line, elapsed.as_str(), ELAPSED_WIDTH);
    assert(line@ =~= table_row_text(name@, *row));
    line
}

/// The table of `report`: the titles, then one line per row in ranking
/// order, each under the name that `catalog` shows for its code.
pub fn table(report: &Report, catalog: &Catalog) -> (lines: Vec<String>)
    ensures
        is_table(lines@, report.rows@, catalog@),
{
    let mut lines: Vec<String> = Vec::new();
    lines.push(table_header());
    let mut i: usize = 0;
    while i < report.rows.len()
        invariant
            i <= report.rows.len(),
            lines.len() == i + 1,
            lines@[0]@ == table_header_text(),
            forall|j: int|
                0 <= j < i ==> (#[trigger] lines@[j + 1])@ == table_row_text(
                    shown(catalog@, report.rows@[j].code),
                    report.rows@[j],
                ),
        decreases report.rows.len() - i,
    {
        let row = &report.rows[i];
        let name = catalog.lookup(row.code);
        let ghost before = lines@;
        lines.push(table_row(name.as_str(), row));
        proof {
            assert forall|j: int| 0 <= j < i + 1 implies (#[trigger] lines@[j + 1])@
                == table_row_text(shown(catalog@, report.rows@[j].code), report.rows@[j]) by {
                if j < i {
                    assert(lines@[j + 1] == before[j + 1]);
                }
            }
        }
        i += 1;
    }
    lines
}

} // verus!
