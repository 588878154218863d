//! Periodic sampling of the single slot of the I/O counter table.
//!
//! Each tick reads the slot, derives one value from its counters, appends a
//! sample to the series, and asks for the slot to be overwritten with
//! zeros. A sample therefore tells the activity since the tick before, not
//! a running total. The sampler performs no reading or writing itself: a
//! tick is given what was read and answers with what is to be written.
//!
//! Values are exact: an average is kept as the fraction of bytes over
//! operations, and times are whole milliseconds.

use vstd::prelude::*;
use crate::record::{DecodeError, IoValue, SlotKey, length_mismatch, IO_VALUE_SIZE};
use crate::table::{distinct_keys, held, lemma_stored_then_held, stored, MapTable};

verus! {

/// The key value of the slot that is sampled.
pub const SAMPLED_SLOT: u32 = 1;

/// Number of ticks after which a row of the progress indicator is full.
pub const TICKS_PER_ROW: u64 = 60;

/// The value that a sample shows.
#[derive(Clone, Copy, Debug, PartialEq, Eq)]
pub enum DisplayMode {
    /// Bytes processed.
    Bytes,
    /// Operations counted.
    Count,
    /// Bytes per operation.
    Average,
}

impl DisplayMode {
    /// The mode chosen by the two command-line switches; the switch for
    /// counts wins over the one for averages.
    pub fn from_flags(show_count: bool, show_average: bool) -> (mode: DisplayMode)
        ensures
            mode == if show_count {
                DisplayMode::Count
            } else if show_average {
                DisplayMode::Average
            } else {
                DisplayMode::Bytes
            },
    {
        if show_count {
            DisplayMode::Count
        } else if show_average {
            DisplayMode::Average
        } else {
            DisplayMode::Bytes
        }
    }
}

/// A non-negative fraction. The denominator of a derived value is never
/// zero.
#[derive(Clone, Copy, Debug, PartialEq, Eq)]
pub struct Ratio {
    pub numerator: u64,
    pub denominator: u64,
}

/// One point of the series.
#[derive(Clone, Copy, Debug, PartialEq, Eq)]
pub struct Sample {
    /// Start of the tick, in milliseconds since the start of the run.
    pub elapsed_ms: u128,
    /// The value derived from the counters read at the tick.
    pub value: Ratio,
}

/// The overwrite that a tick asks for.
#[derive(Debug, PartialEq, Eq)]
pub struct Reset {
    /// Bytes of the key of the slot.
    pub key: Vec<u8>,
    /// Bytes of the value to store.
    pub value: Vec<u8>,
}

/// What a tick answers with.
#[derive(Debug, PartialEq, Eq)]
pub struct Tick {
    /// The overwrite to perform.
    pub reset: Reset,
    /// Whether this tick fills a row of the progress indicator.
    pub ends_row: bool,
}

/// The value that `mode` derives from `counters`; an average over no
/// operation is zero.
pub open spec fn derived(mode: DisplayMode, counters: IoValue) -> Ratio {
    match mode {
        DisplayMode::Bytes => Ratio { numerator: counters.processed_bytes, denominator: 1 },
        DisplayMode::Count => Ratio { numerator: counters.count, denominator: 1 },
        DisplayMode::Average => if counters.count == 0 {
            Ratio { numerator: 0, denominator: 1 }
        } else {
            Ratio { numerator: counters.processed_bytes, denominator: counters.count }
        },
    }
}

/// The value that `mode` derives from `counters`; an average over no
/// operation is zero.
pub fn derive_value(mode: DisplayMode, counters: &IoValue) -> (value: Ratio)
    ensures
        value == derived(mode, *counters),
        value.denominator >= 1,
        mode == DisplayMode::Average && counters.count == 0 ==> value.numerator == 0,
{
    match mode {
        DisplayMode::Bytes => Ratio { numerator: counters.processed_bytes, denominator: 1 },
        DisplayMode::Count => Ratio { numerator: counters.count, denominator: 1 },
        DisplayMode::Average => if counters.count == 0 {
            Ratio { numerator: 0, denominator: 1 }
        } else {
            Ratio { numerator: counters.processed_bytes, denominator: counters.count }
        },
    }
}

/// The bytes of the key of the sampled slot.
pub open spec fn slot_key_bytes() -> Seq<u8> {
    (SlotKey { value: SAMPLED_SLOT }).to_bytes()
}

/// The bytes of the zero record that a tick stores.
pub open spec fn zero_value_bytes() -> Seq<u8> {
    IoValue::spec_zero().to_bytes()
}

/// The mathematical content of a [`Sampler`].
pub struct SamplerView {
    pub mode: DisplayMode,
    pub period_ms: u64,
    /// Number of ticks taken.
    pub ticks: nat,
    /// The series so far.
    pub samples: Seq<Sample>,
}

impl SamplerView {
    /// The state after a tick that read `slot` (`None`: the slot was
    /// absent; else the bytes of its value, of the declared size).
    pub open spec fn after_tick(self, slot: Option<Seq<u8>>) -> SamplerView {
        SamplerView {
            mode: self.mode,
            period_ms: self.period_ms,
            ticks: self.ticks + 1,
            samples: match slot {
                Some(bytes) => self.samples.push(
                    Sample {
                        elapsed_ms: (self.ticks * self.period_ms) as u128,
                        value: derived(self.mode, IoValue::from_bytes(bytes)),
                    },
                ),
                None => self.samples,
            },
        }
    }

    /// The right end of the time axis, in milliseconds: one period after
    /// the start of the last tick.
    pub open spec fn axis_end_ms(self) -> nat {
        self.ticks * (self.period_ms as nat)
    }
}

/// The sampler: display mode, period, ticks taken and the series.
pub struct Sampler {
    mode: DisplayMode,
    period_ms: u64,
    ticks: u64,
    samples: Vec<Sample>,
}

impl View for Sampler {
    type V = SamplerView;

    closed spec fn view(&self) -> SamplerView {
        SamplerView {
            mode: self.mode,
            period_ms: self.period_ms,
            ticks: self.ticks as nat,
            samples: self.samples@,
        }
    }
}

impl Sampler {
    /// A sampler that has taken no tick.
    pub fn new(mode: DisplayMode, period_ms: u64) -> (sampler: Sampler)
        ensures
            sampler@ == (SamplerView { mode, period_ms, ticks: 0, samples: Seq::empty() }),
    {
        Sampler { mode, period_ms, ticks: 0, samples: Vec::new() }
    }

    /// The display mode.
    pub fn mode(&self) -> (mode: DisplayMode)
        ensures
            mode == self@.mode,
    {
        self.mode
    }

    /// The period between ticks, in milliseconds.
    pub fn period_ms(&self) -> (period: u64)
        ensures
            period == self@.period_ms,
    {
        self.period_ms
    }

    /// The number of ticks taken.
    pub fn ticks(&self) -> (ticks: u64)
        ensures
            ticks == self@.ticks,
    {
        self.ticks
    }

    /// The series so far.
    pub fn samples(&self) -> (samples: &Vec<Sample>)
        ensures
            samples@ == self@.samples,
    {
        &self.samples
    }

    /// The right end of the time axis of the chart, in milliseconds.
    pub fn axis_end_ms(&self) -> (end: u128)
        ensures
            end == self@.axis_end_ms(),
    {
        proof {
            lemma_product_fits(self.ticks, self.period_ms);
        }
        self.ticks as u128 * self.period_ms as u128
    }

    /// Takes one tick. `slot` is what reading the sampled slot gave: `None`
    /// if the table has no such slot, else the bytes of its value.
    ///
    /// A value of the wrong length is refused and changes nothing.
    /// Otherwise the tick is counted, a sample is appended if the slot was
    /// there, and the answer holds the overwrite that zeroes the slot.
    pub fn tick(&mut self, slot: Option<&[u8]>) -> (result: Result<Tick, DecodeError>)
        requires
            old(self)@.ticks < u64::MAX,
        ensures
            match slot {
                Some(bytes) if bytes@.len() != IO_VALUE_SIZE => {
                    &&& result == Err::<Tick, DecodeError>(
                        length_mismatch(IO_VALUE_SIZE, bytes@.len()),
                    )
                    &&& final(self)@ == old(self)@
                },
                Some(bytes) => {
                    &&& result is Ok
                    &&& final(self)@ == old(self)@.after_tick(Some(bytes@))
                },
                None => {
                    &&& result is Ok
                    &&& final(self)@ == old(self)@.after_tick(None)
                },
            },
            result matches Ok(tick) ==> {
                &&& tick.reset.key@ == slot_key_bytes()
                &&& tick.reset.value@ == zero_value_bytes()
                &&& tick.ends_row == (final(self)@.ticks % (TICKS_PER_ROW as nat) == 0)
            },
    {
        match slot {
            Some(bytes) => {
                let counters = match IoValue::decode(bytes) {
                    Ok(counters) => counters,
                    Err(error) => {
                        return Err(error);
                    },
                };
                proof {
                    lemma_product_fits(self.ticks, self.period_ms);
                }
                let elapsed_ms: u128 = self.ticks as u128 * self.period_ms as u128;
                self.samples.push(Sample { elapsed_ms, value: derive_value(self.mode, &counters) });
            },
            None => {},
        }
        self.ticks = self.ticks + 1;
        let reset = Reset {
            key: (SlotKey { value: SAMPLED_SLOT }).encode(),
            value: IoValue::zero().encode(),
        };
        Ok(Tick { reset, ends_row: self.ticks % TICKS_PER_ROW == 0 })
    }

    /// Takes one tick on `table`: reads the sampled slot, takes the tick,
    /// and overwrites the slot with zeros. Tells whether the tick fills a
    /// row of the progress indicator.
    ///
    /// A slot whose value has the wrong length is refused; the sampler and
    /// the table stay as they were.
    pub fn sample(&mut self, table: &mut MapTable) -> (result: Result<bool, DecodeError>)
        requires
            old(self)@.ticks < u64::MAX,
            old(table).wf(),
        ensures
            final(table).wf(),
            match held(old(table)@, slot_key_bytes()) {
                Some(bytes) if bytes.len() != IO_VALUE_SIZE => {
                    &&& result == Err::<bool, DecodeError>(
                        length_mismatch(IO_VALUE_SIZE, bytes.len()),
                    )
                    &&& final(self)@ == old(self)@
                    &&& final(table)@ == old(table)@
                },
                slot => {
                    &&& result == Ok::<bool, DecodeError>(
                        final(self)@.ticks % (TICKS_PER_ROW as nat) == 0,
                    )
                    &&& final(self)@ == old(self)@.after_tick(slot)
                    &&& final(table)@ == stored(
                        old(table)@,
                        slot_key_bytes(),
                        zero_value_bytes(),
                    )
                },
            },
    {
        let key = (SlotKey { value: SAMPLED_SLOT }).encode();
        let answer = match table.lookup(key.as_slice()) {
            Some(bytes) => self.tick(Some(bytes.as_slice())),
            None => self.tick(None),
        };
        match answer {
            Ok(tick) => {
                table.update(tick.reset.key.as_slice(), tick.reset.value.as_slice());
                Ok(tick.ends_row)
            },
            Err(error) => Err(error),
        }
    }
}

/// The product of two 64-bit numbers fits in 128 bits.
pub proof fn lemma_product_fits(a: u64, b: u64)
    ensures
        a * b <= u128::MAX,
{
    assert(a * b <= 0xffff_ffff_ffff_ffff * 0xffff_ffff_ffff_ffff) by (nonlinear_arith)
        requires
            0 <= a <= 0xffff_ffff_ffff_ffff,
            0 <= b <= 0xffff_ffff_ffff_ffff,
    ;
}

/// The zero record is read back as counters that are all zero.
pub proof fn lemma_zero_value_reads_zero()
    ensures
        zero_value_bytes().len() == IO_VALUE_SIZE,
        IoValue::from_bytes(zero_value_bytes()) == IoValue::spec_zero(),
{
    IoValue::spec_zero().lemma_encode_then_decode();
}

/// In average mode counters without any operation give the value zero,
/// whatever their byte total.
pub proof fn lemma_average_of_no_operation(processed_bytes: u64)
    ensures
        derived(DisplayMode::Average, IoValue { count: 0, processed_bytes }) == (Ratio {
            numerator: 0,
            denominator: 1,
        }),
{
}

/// A tick that reads what the tick before wrote derives zero: when nothing
/// else writes the slot between two ticks, the second sample is zero in
/// every mode.
pub proof fn lemma_second_tick_reads_zero(before: SamplerView, first: Option<Seq<u8>>)
    ensures
        before.after_tick(first).after_tick(Some(zero_value_bytes())).samples.last().value == (
        Ratio { numerator: 0, denominator: 1 }),
        before.after_tick(first).after_tick(Some(zero_value_bytes())).samples.len()
            == before.after_tick(first).samples.len() + 1,
{
    lemma_zero_value_reads_zero();
}

/// Two ticks in a row on a table that nothing else writes: the second
/// one finds the zeros that the first one stored, and its sample is zero in
/// every mode.
pub proof fn lemma_second_sample_is_zero(before: SamplerView, table: Seq<(Seq<u8>, Seq<u8>)>)
    requires
        distinct_keys(table),
    ensures
        held(stored(table, slot_key_bytes(), zero_value_bytes()), slot_key_bytes()) == Some(
            zero_value_bytes(),
        ),
        before.after_tick(held(table, slot_key_bytes())).after_tick(
            held(stored(table, slot_key_bytes(), zero_value_bytes()), slot_key_bytes()),
        ).samples.last().value == (Ratio { numerator: 0, denominator: 1 }),
        stored(
            stored(table, slot_key_bytes(), zero_value_bytes()),
            slot_key_bytes(),
            zero_value_bytes(),
        ) == stored(table, slot_key_bytes(), zero_value_bytes()),
{
    lemma_stored_then_held(table, slot_key_bytes(), zero_value_bytes(), slot_key_bytes());
    lemma_second_tick_reads_zero(before, held(table, slot_key_bytes()));
}

} // verus!
