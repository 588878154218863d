//! The line written for one namespace-change event.
//!
//! A line has six columns, separated by one space: the time of the event,
//! the process id, the command name, the result of the call, the flags as a
//! number and the flags by name. Narrow values are padded to the width of
//! their column; wide values are never cut.

use vstd::prelude::*;
use vstd::string::{StrSliceExecFns, StringExecFns};
use vstd::utf8::{decode_utf8, valid_utf8};
use crate::flags::{flags_text, CloneFlags, KNOWN_BITS};
use crate::record::{DecodeError, Event, EventView, length_mismatch, EVENT_SIZE};
use crate::text::{
    decimal, decimal_text, hexadecimal, hexadecimal_text, left_aligned, push_left_aligned,
    push_right_aligned, push_zero_filled, right_aligned, signed_decimal, signed_decimal_text,
    zero_filled,
};

verus! {

/// Width of the time column.
pub const TIME_WIDTH: usize = 20;

/// Width of the process id column.
pub const PID_WIDTH: usize = 6;

/// Width of the command name column.
pub const COMM_WIDTH: usize = 18;

/// Width of the result column.
pub const RET_WIDTH: usize = 3;

/// Number of hexadecimal digits to which the flags are filled with zeros.
pub const FLAGS_DIGITS: usize = 8;

/// The first second, counted from the start of 1970 in universal time, of
/// which a line can tell the time: the first of the year 0.
pub const FIRST_SECOND: i64 = -62_167_219_200;

/// The last second of which a line can tell the time: the last of the year
/// 9999.
pub const LAST_SECOND: i64 = 253_402_300_799;

/// Why no line could be written for an event.
#[derive(Clone, Copy, Debug, PartialEq, Eq)]
pub enum EventError {
    /// The record has the wrong length.
    Decode(DecodeError),
    /// The time lies outside the years 0 to 9999, or the offset from
    /// universal time is a day or more.
    Time,
    /// The command name is not UTF-8.
    Comm,
}

/// The time `secs` seconds after the start of 1970 in universal time, as a
/// clock `offset` seconds ahead of universal time shows it, written as date,
/// `T`, time of day and offset from universal time (`Z` for none).
pub uninterp spec fn rfc3339_text(secs: i64, offset: i32) -> Seq<char>;

/// Whether a line can tell the time `secs` on a clock `offset` seconds
/// ahead of universal time.
pub open spec fn time_in_range(secs: i64, offset: i32) -> bool {
    FIRST_SECOND <= secs <= LAST_SECOND && -86_400 < offset < 86_400
}

/// `text` without the NUL characters at its end.
pub open spec fn without_padding(text: Seq<char>) -> Seq<char>
    decreases text.len(),
{
    if text.len() > 0 && text.last() == '\0' {
        without_padding(text.drop_last())
    } else {
        text
    }
}

/// The command name held in the bytes `comm`.
pub open spec fn comm_text(comm: Seq<u8>) -> Seq<char> {
    without_padding(decode_utf8(comm))
}

/// The flags `raw` as a number: `0x` and at least eight hexadecimal digits.
pub open spec fn flags_number(raw: u64) -> Seq<char> {
    "0x"@ + zero_filled(hexadecimal(raw as nat), FLAGS_DIGITS as int)
}

/// The line of `event`, with `stamp` in the time column.
pub open spec fn event_line_text(stamp: Seq<char>, event: EventView) -> Seq<char> {
    left_aligned(stamp, TIME_WIDTH as int) + " "@ + right_aligned(
        decimal(event.pid as nat),
        PID_WIDTH as int,
    ) + " "@ + left_aligned(comm_text(event.comm), COMM_WIDTH as int) + " "@ + right_aligned(
        signed_decimal(event.ret as int),
        RET_WIDTH as int,
    ) + " "@ + flags_number(event.flags) + " "@ + flags_text(event.flags & KNOWN_BITS)
}

/// The line of column titles.
pub open spec fn event_header_text() -> Seq<char> {
    left_aligned("TIME"@, TIME_WIDTH as int) + " "@ + left_aligned("TID"@, PID_WIDTH as int)
        + " "@ + left_aligned("COMM"@, COMM_WIDTH as int) + " "@ + left_aligned(
        "RET"@,
        RET_WIDTH as int,
    ) + " "@ + left_aligned("FLAGS"@, 10) + " "@ + "FLAGS(human)"@
}

/// The text that the bytes `bytes` hold, if they are UTF-8.
///
/// Calls `std::str::from_utf8`. The contract claims what its documentation
/// says: the call succeeds exactly on well-formed UTF-8, and the text it
/// gives is the one that the bytes encode.
#[verifier::external_body]
fn utf8_text(bytes: &[u8]) -> (text: Option<&str>)
    ensures
        text is Some <==> valid_utf8(bytes@),
        text matches Some(t) ==> t@ == decode_utf8(bytes@),
{
    std::str::from_utf8(bytes).ok()
}

/// The time `secs` on a clock `offset` seconds ahead of universal time, in
/// the form of RFC 3339 with whole seconds.
///
/// Calls `chrono::FixedOffset::east_opt`, `chrono::TimeZone::timestamp_opt`
/// and `chrono::DateTime::to_rfc3339_opts` with `SecondsFormat::Secs` and
/// `Z` for universal time. The contract claims that within the years 0 to
/// 9999 the only refusal is that of an offset of a day or more, and names
/// the text that is returned; it says nothing of what the text holds.
#[verifier::external_body]
fn rfc3339(secs: i64, offset: i32) -> (text: Option<String>)
    requires
        FIRST_SECOND <= secs <= LAST_SECOND,
    ensures
        text is Some <==> -86_400 < offset < 86_400,
        text matches Some(t) ==> t@ == rfc3339_text(secs, offset),
{
    let zone = chrono::FixedOffset::east_opt(offset)?;
    let at = chrono::TimeZone::timestamp_opt(&zone, secs, 0).single()?;
    Some(at.to_rfc3339_opts(chrono::SecondsFormat::Secs, true))
}

/// The command name held in `comm`: its text without the NUL characters at
/// its end, or `None` if the bytes are not UTF-8.
pub fn comm_name(comm: &[u8]) -> (name: Option<String>)
    ensures
        name is Some <==> valid_utf8(comm@),
        name matches Some(n) ==> n@ == comm_text(comm@),
{
    match utf8_text(comm) {
        Some(text) => {
            let mut end: usize = text.unicode_len();
            assert(text@.take(end as int) =~= text@);
            while end > 0 && text.get_char(end - 1) == '\0'
                invariant
                    end <= text@.len(),
                    without_padding(text@) == without_padding(text@.take(end as int)),
                decreases end,
            {
                proof {
                    assert(text@.take(end as int).drop_last() =~= text@.take(end as int - 1));
                }
                end -= 1;
            }
            let kept = text.substring_char(0, end);
            assert(kept@ =~= text@.take(end as int));
            Some(kept.to_owned())
        },
        None => None,
    }
}

/// The line of column titles.
pub fn event_header() -> (line: String)
    ensures
        line@ == event_header_text(),
{
    let mut line = String::new();
    push_left_aligned(&mut line, "TIME", TIME_WIDTH);
    line.append(" ");
    push_left_aligned(&mut line, "TID", PID_WIDTH);
    line.append(" ");
    push_left_aligned(&mut line, "COMM", COMM_WIDTH);
    line.append(" ");
    push_left_aligned(&mut line, "RET", RET_WIDTH);
    line.append(" ");
    push_left_aligned(&mut line, "FLAGS", 10);
    line.append(" ");
    line.append("FLAGS(human)");
    assert(line@ =~= event_header_text());
    line
}

/// The line of `event`, with `stamp` in the time column; `None` if the
/// command name of the event is not UTF-8.
pub fn event_line(stamp: &str, event: &Event) -> (line: Option<String>)
    ensures
        line is Some <==> valid_utf8(event@.comm),
        line matches Some(l) ==> l@ == event_line_text(stamp@, event@),
{
    let comm = match comm_name(event.comm.as_slice()) {
        Some(comm) => comm,
        None => {
            return None;
        },
    };
    let pid = decimal_text(event.pid as u128);
    let ret = signed_decimal_text(event.ret as i64);
    let hex = hexadecimal_text(event.flags as u128);
    let names = CloneFlags::from_bits_truncate(event.flags).describe();
    let mut line = String::new();
    push_left_aligned(&mut line, stamp, TIME_WIDTH);
    line.append(" ");
    push_right_aligned(&mut line, pid.as_str(), PID_WIDTH);
    line.append(" ");
    push_left_aligned(&mut line, comm.as_str(), COMM_WIDTH);
    line.append(" ");
    push_right_aligned(&mut line, ret.as_str(), RET_WIDTH);
    line.append(" ");
    line.append("0x");
    push_zero_filled(&mut line, hex.as_str(), FLAGS_DIGITS);
    line.append(" ");
    line.append(names.as_str());
    assert(line@ =~= event_line_text(stamp@, event@));
    Some(line)
}

/// What handling the record `data` at the time `secs`, on a clock `offset`
/// seconds ahead of universal time, gives: the line to write, or the reason
/// why there is none. The length of the record is looked at first, then the
/// time, then the command name.
pub open spec fn handled(secs: i64, offset: i32, data: Seq<u8>) -> Result<Seq<char>, EventError> {
    if data.len() != EVENT_SIZE {
        Err(EventError::Decode(length_mismatch(EVENT_SIZE, data.len())))
    } else if !time_in_range(secs, offset) {
        Err(EventError::Time)
    } else if !valid_utf8(EventView::from_bytes(data).comm) {
        Err(EventError::Comm)
    } else {
        Ok(event_line_text(rfc3339_text(secs, offset), EventView::from_bytes(data)))
    }
}

/// Handles one record of the ring buffer: decodes it and gives the line to
/// write for it. `secs` and `offset` tell the time at which the record was
/// received: seconds since the start of 1970 in universal time, and the
/// seconds that the local clock is ahead of universal time.
pub fn handle_event(secs: i64, offset: i32, data: &[u8]) -> (result: Result<String, EventError>)
    ensures
        match result {
            Ok(line) => handled(secs, offset, data@) == Ok::<Seq<char>, EventError>(line@),
            Err(error) => handled(secs, offset, data@) == Err::<Seq<char>, EventError>(error),
        },
{
    let event = match Event::decode(data) {
        Ok(event) => event,
        Err(error) => {
            return Err(EventError::Decode(error));
        },
    };
    if secs < FIRST_SECOND || secs > LAST_SECOND {
        return Err(EventError::Time);
    }
    let stamp = match rfc3339(secs, offset) {
        Some(stamp) => stamp,
        None => {
            return Err(EventError::Time);
        },
    };
    match event_line(stamp.as_str(), &event) {
        Some(line) => Ok(line),
        None => Err(EventError::Comm),
    }
}

} // verus!
