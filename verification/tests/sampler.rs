use contelemetry::record::{DecodeError, IoValue, SlotKey};
use contelemetry::table::MapTable;
use contelemetry::sampler::{
    derive_value, DisplayMode, Ratio, Reset, Sample, Sampler, Tick, SAMPLED_SLOT, TICKS_PER_ROW,
};

fn io(count: u64, processed_bytes: u64) -> Vec<u8> {
    IoValue { count, processed_bytes }.encode()
}

fn whole(n: u64) -> Ratio {
    Ratio { numerator: n, denominator: 1 }
}

#[test]
fn mode_follows_the_switches() {
    assert_eq!(DisplayMode::from_flags(false, false), DisplayMode::Bytes);
    assert_eq!(DisplayMode::from_flags(true, false), DisplayMode::Count);
    assert_eq!(DisplayMode::from_flags(false, true), DisplayMode::Average);
    assert_eq!(DisplayMode::from_flags(true, true), DisplayMode::Count);
}

#[test]
fn derived_value_per_mode() {
    let counters = IoValue { count: 4, processed_bytes: 4096 };
    assert_eq!(derive_value(DisplayMode::Bytes, &counters), whole(4096));
    assert_eq!(derive_value(DisplayMode::Count, &counters), whole(4));
    assert_eq!(
        derive_value(DisplayMode::Average, &counters),
        Ratio { numerator: 4096, denominator: 4 }
    );
}

#[test]
fn average_of_no_operation_is_zero() {
    for bytes in [0, 1, 4096, u64::MAX] {
        let counters = IoValue { count: 0, processed_bytes: bytes };
        let value = derive_value(DisplayMode::Average, &counters);
        assert_eq!(value, whole(0));
        assert_eq!(value.numerator as f32 / value.denominator as f32, 0.0);
    }
}

#[test]
fn tick_appends_a_sample_and_asks_for_a_reset() {
    let mut sampler = Sampler::new(DisplayMode::Bytes, 250);
    let tick = sampler.tick(Some(&io(2, 1000))).unwrap();
    assert_eq!(
        tick,
        Tick {
            reset: Reset { key: vec![1, 0, 0, 0], value: vec![0u8; 16] },
            ends_row: false,
        }
    );
    assert_eq!(tick.reset.key, SlotKey { value: SAMPLED_SLOT }.encode());
    assert_eq!(tick.reset.value, IoValue::zero().encode());
    assert_eq!(sampler.ticks(), 1);
    assert_eq!(sampler.samples(), &vec![Sample { elapsed_ms: 0, value: whole(1000) }]);
    sampler.tick(Some(&io(3, 500))).unwrap();
    sampler.tick(Some(&io(1, 7))).unwrap();
    assert_eq!(
        sampler.samples(),
        &vec![
            Sample { elapsed_ms: 0, value: whole(1000) },
            Sample { elapsed_ms: 250, value: whole(500) },
            Sample { elapsed_ms: 500, value: whole(7) },
        ]
    );
    assert_eq!(sampler.axis_end_ms(), 750);
    assert_eq!(sampler.mode(), DisplayMode::Bytes);
    assert_eq!(sampler.period_ms(), 250);
}

#[test]
fn second_tick_after_reset_derives_zero() {
    for mode in [DisplayMode::Bytes, DisplayMode::Count, DisplayMode::Average] {
        let mut sampler = Sampler::new(mode, 1000);
        let first = sampler.tick(Some(&io(5, 5000))).unwrap();
        sampler.tick(Some(&first.reset.value)).unwrap();
        assert_eq!(sampler.samples().len(), 2);
        assert_eq!(sampler.samples()[1], Sample { elapsed_ms: 1000, value: whole(0) });
    }
}

#[test]
fn absent_slot_counts_the_tick_without_a_sample() {
    let mut sampler = Sampler::new(DisplayMode::Count, 1000);
    let tick = sampler.tick(None).unwrap();
    assert_eq!(tick.reset.value, vec![0u8; 16]);
    assert_eq!(sampler.ticks(), 1);
    assert!(sampler.samples().is_empty());
    sampler.tick(Some(&io(9, 1))).unwrap();
    assert_eq!(sampler.samples(), &vec![Sample { elapsed_ms: 1000, value: whole(9) }]);
    assert_eq!(sampler.axis_end_ms(), 2000);
}

#[test]
fn value_of_wrong_length_changes_nothing() {
    let mut sampler = Sampler::new(DisplayMode::Bytes, 10);
    sampler.tick(Some(&io(1, 1))).unwrap();
    assert_eq!(
        sampler.tick(Some(&[0u8; 15])),
        Err(DecodeError { expected: 16, actual: 15 })
    );
    assert_eq!(
        sampler.tick(Some(&[0u8; 24])),
        Err(DecodeError { expected: 16, actual: 24 })
    );
    assert_eq!(sampler.ticks(), 1);
    assert_eq!(sampler.samples().len(), 1);
}

#[test]
fn every_sixtieth_tick_ends_a_row() {
    let mut sampler = Sampler::new(DisplayMode::Bytes, 1);
    for n in 1..=130u64 {
        let tick = sampler.tick(None).unwrap();
        assert_eq!(tick.ends_row, n % TICKS_PER_ROW == 0, "tick {}", n);
    }
}

#[test]
fn elapsed_time_is_exact_for_large_periods() {
    let mut sampler = Sampler::new(DisplayMode::Bytes, u64::MAX);
    sampler.tick(None).unwrap();
    sampler.tick(None).unwrap();
    sampler.tick(Some(&io(1, 1))).unwrap();
    assert_eq!(sampler.samples()[0].elapsed_ms, 2 * (u64::MAX as u128));
    assert_eq!(sampler.axis_end_ms(), 3 * (u64::MAX as u128));
}

#[test]
fn new_sampler_has_no_tick() {
    let sampler = Sampler::new(DisplayMode::Average, 1000);
    assert_eq!(sampler.ticks(), 0);
    assert_eq!(sampler.axis_end_ms(), 0);
    assert!(sampler.samples().is_empty());
}

#[test]
fn sampling_a_table_reads_and_resets_the_slot() {
    let key = SlotKey { value: SAMPLED_SLOT }.encode();
    let mut table = MapTable::new();
    table.update(&key, &io(4, 8192));
    table.update(&[2, 0, 0, 0], &io(1, 1));
    let mut sampler = Sampler::new(DisplayMode::Average, 500);
    assert_eq!(sampler.sample(&mut table), Ok(false));
    assert_eq!(
        sampler.samples(),
        &vec![Sample { elapsed_ms: 0, value: Ratio { numerator: 8192, denominator: 4 } }]
    );
    assert_eq!(table.lookup(&key), Some(vec![0u8; 16]));
    assert_eq!(table.lookup(&[2, 0, 0, 0]), Some(io(1, 1)));
    assert_eq!(table.len(), 2);
}

#[test]
fn two_samples_in_a_row_give_zero_the_second_time() {
    let key = SlotKey { value: SAMPLED_SLOT }.encode();
    for mode in [DisplayMode::Bytes, DisplayMode::Count, DisplayMode::Average] {
        let mut table = MapTable::new();
        table.update(&key, &io(3, 300));
        let mut sampler = Sampler::new(mode, 1000);
        sampler.sample(&mut table).unwrap();
        sampler.sample(&mut table).unwrap();
        assert_eq!(sampler.samples().len(), 2);
        assert_ne!(sampler.samples()[0].value.numerator, 0);
        assert_eq!(sampler.samples()[1], Sample { elapsed_ms: 1000, value: whole(0) });
        assert_eq!(table.lookup(&key), Some(vec![0u8; 16]));
    }
}

#[test]
fn sampling_a_table_without_the_slot_creates_it() {
    let key = SlotKey { value: SAMPLED_SLOT }.encode();
    let mut table = MapTable::new();
    let mut sampler = Sampler::new(DisplayMode::Bytes, 1000);
    assert_eq!(sampler.sample(&mut table), Ok(false));
    assert!(sampler.samples().is_empty());
    assert_eq!(sampler.ticks(), 1);
    assert_eq!(table.lookup(&key), Some(vec![0u8; 16]));
    sampler.sample(&mut table).unwrap();
    assert_eq!(sampler.samples(), &vec![Sample { elapsed_ms: 1000, value: whole(0) }]);
}

#[test]
fn sampling_a_slot_of_wrong_length_changes_nothing() {
    let key = SlotKey { value: SAMPLED_SLOT }.encode();
    let mut table = MapTable::new();
    table.update(&key, &[7u8; 12]);
    let mut sampler = Sampler::new(DisplayMode::Bytes, 1000);
    assert_eq!(
        sampler.sample(&mut table),
        Err(DecodeError { expected: 16, actual: 12 })
    );
    assert_eq!(sampler.ticks(), 0);
    assert_eq!(table.lookup(&key), Some(vec![7u8; 12]));
}
