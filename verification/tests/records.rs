use contelemetry::record::{
    DecodeError, Event, FileHandle, IoValue, SlotKey, SyscallKey, SyscallValue, EVENT_SIZE,
    FILE_HANDLE_SIZE, IO_VALUE_SIZE, SLOT_KEY_SIZE, SYSCALL_KEY_SIZE, SYSCALL_VALUE_SIZE,
};
use contelemetry::wire::{read_i32, read_u32, read_u64, write_i32, write_u32, write_u64};

fn pattern(len: usize, seed: u8) -> Vec<u8> {
    let mut out = Vec::new();
    let mut x = seed;
    for _ in 0..len {
        x = x.wrapping_mul(167).wrapping_add(13);
        out.push(x);
    }
    out
}

#[test]
fn read_u32_is_little_endian() {
    assert_eq!(read_u32(&[0x78, 0x56, 0x34, 0x12], 0), 0x1234_5678);
    assert_eq!(read_u32(&[0xff, 0x01, 0x00, 0x00, 0x00], 1), 1);
    assert_eq!(read_u32(&[0xff, 0xff, 0xff, 0xff], 0), u32::MAX);
}

#[test]
fn read_u64_is_little_endian() {
    let bytes = [0xef, 0xcd, 0xab, 0x89, 0x67, 0x45, 0x23, 0x01];
    assert_eq!(read_u64(&bytes, 0), 0x0123_4567_89ab_cdef);
    assert_eq!(read_u64(&[0xff; 8], 0), u64::MAX);
}

#[test]
fn read_i32_is_twos_complement() {
    assert_eq!(read_i32(&[0xff, 0xff, 0xff, 0xff], 0), -1);
    assert_eq!(read_i32(&[0x00, 0x00, 0x00, 0x80], 0), i32::MIN);
    assert_eq!(read_i32(&[0xff, 0xff, 0xff, 0x7f], 0), i32::MAX);
    assert_eq!(read_i32(&[0xea, 0xff, 0xff, 0xff], 0), -22);
}

#[test]
fn written_fields_match_the_platform_encoding() {
    let mut out = Vec::new();
    write_u32(&mut out, 0xdead_beef);
    write_u64(&mut out, 0x0102_0304_0506_0708);
    write_i32(&mut out, -2);
    let mut expected = Vec::new();
    expected.extend_from_slice(&0xdead_beefu32.to_le_bytes());
    expected.extend_from_slice(&0x0102_0304_0506_0708u64.to_le_bytes());
    expected.extend_from_slice(&(-2i32).to_le_bytes());
    assert_eq!(out, expected);
}

#[test]
fn written_fields_are_read_back() {
    for value in [0u64, 1, 255, 256, 0xffff_ffff, 0x1_0000_0000, u64::MAX - 1, u64::MAX] {
        let mut out = vec![9u8];
        write_u64(&mut out, value);
        assert_eq!(out.len(), 9);
        assert_eq!(read_u64(&out, 1), value);
    }
    for value in [i32::MIN, -1, 0, 1, i32::MAX] {
        let mut out = Vec::new();
        write_i32(&mut out, value);
        assert_eq!(read_i32(&out, 0), value);
    }
}

#[test]
fn slot_key_decodes_its_value() {
    assert_eq!(SlotKey::decode(&[1, 0, 0, 0]), Ok(SlotKey { value: 1 }));
    assert_eq!(SlotKey { value: 1 }.encode(), vec![1, 0, 0, 0]);
}

#[test]
fn io_value_decodes_both_counters() {
    let mut bytes = Vec::new();
    bytes.extend_from_slice(&7u64.to_le_bytes());
    bytes.extend_from_slice(&4096u64.to_le_bytes());
    assert_eq!(IoValue::decode(&bytes), Ok(IoValue { count: 7, processed_bytes: 4096 }));
    assert_eq!(IoValue::zero().encode(), vec![0u8; 16]);
}

#[test]
fn syscall_key_keeps_the_gap() {
    let mut bytes = Vec::new();
    bytes.extend_from_slice(&42u32.to_le_bytes());
    bytes.extend_from_slice(&[0xaa, 0xbb, 0xcc, 0xdd]);
    bytes.extend_from_slice(&59u64.to_le_bytes());
    let key = SyscallKey::decode(&bytes).unwrap();
    assert_eq!(key.tid, 42);
    assert_eq!(key.syscall_nr, 59);
    assert_eq!(key.reserved, 0xddcc_bbaa);
    assert_eq!(key.encode(), bytes);
    assert_eq!(SyscallKey::new(42, 59), SyscallKey { tid: 42, reserved: 0, syscall_nr: 59 });
}

#[test]
fn syscall_value_decodes_three_counters() {
    let mut bytes = Vec::new();
    bytes.extend_from_slice(&3u64.to_le_bytes());
    bytes.extend_from_slice(&900u64.to_le_bytes());
    bytes.extend_from_slice(&123_456_789u64.to_le_bytes());
    assert_eq!(
        SyscallValue::decode(&bytes),
        Ok(SyscallValue { count: 3, elapsed_ns: 900, enter_ns: 123_456_789 })
    );
}

#[test]
fn out_of_range_field_values_decode() {
    let mut bytes = Vec::new();
    bytes.extend_from_slice(&u32::MAX.to_le_bytes());
    bytes.extend_from_slice(&0u32.to_le_bytes());
    bytes.extend_from_slice(&u64::MAX.to_le_bytes());
    let key = SyscallKey::decode(&bytes).unwrap();
    assert_eq!(key.syscall_nr, u64::MAX);
    assert_eq!(key.tid, u32::MAX);
}

#[test]
fn file_handle_carries_the_identifier_after_two_fields() {
    let mut bytes = Vec::new();
    bytes.extend_from_slice(&8u32.to_le_bytes());
    bytes.extend_from_slice(&(-2i32).to_le_bytes());
    bytes.extend_from_slice(&0x0000_0001_0000_002au64.to_le_bytes());
    assert_eq!(
        FileHandle::decode(&bytes),
        Ok(FileHandle { handle_bytes: 8, handle_type: -2, cgid: 0x0000_0001_0000_002a })
    );
}

#[test]
fn event_decodes_every_field() {
    let mut bytes = Vec::new();
    bytes.extend_from_slice(&1234u32.to_le_bytes());
    bytes.extend_from_slice(&[1, 2, 3, 4]);
    bytes.extend_from_slice(&0x2002_0000u64.to_le_bytes());
    bytes.extend_from_slice(&(-1i32).to_le_bytes());
    let mut comm = [0u8; 16];
    comm[..7].copy_from_slice(b"unshare");
    bytes.extend_from_slice(&comm);
    bytes.extend_from_slice(&[5, 6, 7, 8]);
    assert_eq!(bytes.len(), EVENT_SIZE);
    let event = Event::decode(&bytes).unwrap();
    assert_eq!(event.pid, 1234);
    assert_eq!(event.flags, 0x2002_0000);
    assert_eq!(event.ret, -1);
    assert_eq!(event.comm, comm);
    assert_eq!(event.reserved, 0x0403_0201);
    assert_eq!(event.tail, 0x0807_0605);
    assert_eq!(event.encode(), bytes);
    let plain = Event::new(1234, 0x2002_0000, -1, comm);
    assert_eq!(plain.reserved, 0);
    assert_eq!(plain.tail, 0);
    assert_eq!(Event::decode(&plain.encode()), Ok(plain));
}

#[test]
fn decode_then_encode_gives_the_bytes_back() {
    for seed in 0..32u8 {
        let b = pattern(SLOT_KEY_SIZE, seed);
        assert_eq!(SlotKey::decode(&b).unwrap().encode(), b);
        let b = pattern(IO_VALUE_SIZE, seed);
        assert_eq!(IoValue::decode(&b).unwrap().encode(), b);
        let b = pattern(SYSCALL_KEY_SIZE, seed);
        assert_eq!(SyscallKey::decode(&b).unwrap().encode(), b);
        let b = pattern(SYSCALL_VALUE_SIZE, seed);
        assert_eq!(SyscallValue::decode(&b).unwrap().encode(), b);
        let b = pattern(FILE_HANDLE_SIZE, seed);
        assert_eq!(FileHandle::decode(&b).unwrap().encode(), b);
        let b = pattern(EVENT_SIZE, seed);
        assert_eq!(Event::decode(&b).unwrap().encode(), b);
    }
}

#[test]
fn encode_then_decode_gives_the_record_back() {
    let value = SyscallValue { count: u64::MAX, elapsed_ns: 1, enter_ns: 0x8000_0000_0000_0000 };
    assert_eq!(SyscallValue::decode(&value.encode()), Ok(value));
    let handle = FileHandle { handle_bytes: 8, handle_type: i32::MIN, cgid: u64::MAX };
    assert_eq!(FileHandle::decode(&handle.encode()), Ok(handle));
    let io = IoValue { count: 12, processed_bytes: u64::MAX };
    assert_eq!(IoValue::decode(&io.encode()), Ok(io));
}

#[test]
fn a_short_buffer_is_refused() {
    assert_eq!(SlotKey::decode(&[1, 0, 0]), Err(DecodeError { expected: 4, actual: 3 }));
    assert_eq!(IoValue::decode(&[0u8; 15]), Err(DecodeError { expected: 16, actual: 15 }));
    assert_eq!(SyscallKey::decode(&[]), Err(DecodeError { expected: 16, actual: 0 }));
    assert_eq!(SyscallValue::decode(&[0u8; 16]), Err(DecodeError { expected: 24, actual: 16 }));
    assert_eq!(FileHandle::decode(&[0u8; 8]), Err(DecodeError { expected: 16, actual: 8 }));
    assert_eq!(Event::decode(&[0u8; 36]), Err(DecodeError { expected: 40, actual: 36 }));
}

#[test]
fn a_long_buffer_is_refused() {
    assert_eq!(SlotKey::decode(&[0u8; 5]), Err(DecodeError { expected: 4, actual: 5 }));
    assert_eq!(IoValue::decode(&[0u8; 17]), Err(DecodeError { expected: 16, actual: 17 }));
    assert_eq!(SyscallKey::decode(&[0u8; 24]), Err(DecodeError { expected: 16, actual: 24 }));
    assert_eq!(SyscallValue::decode(&[0u8; 25]), Err(DecodeError { expected: 24, actual: 25 }));
    assert_eq!(FileHandle::decode(&[0u8; 128]), Err(DecodeError { expected: 16, actual: 128 }));
    assert_eq!(Event::decode(&[0u8; 41]), Err(DecodeError { expected: 40, actual: 41 }));
}
