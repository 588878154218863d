//! The fixed-layout records exchanged with the kernel-side instrumentation.
//!
//! Fields are little-endian, as on the machines that the instrumentation
//! runs on, and lie at the offsets that the C layout of the record gives
//! them. A record is decoded only from a buffer of exactly its declared
//! size. Every byte of the buffer is kept, the alignment gaps of the layout
//! included, so that decoding and encoding are inverse to each other. Field
//! values are not inspected: any bit pattern of the right length is a
//! record.

use vstd::prelude::*;
use crate::wire::{
    i32_le, le_i32, le_u32, le_u64, lemma_signed_unsigned, lemma_u32_of_concat,
    lemma_u32_read_then_written, lemma_u32_written_then_read, lemma_u64_of_concat,
    lemma_u64_read_then_written, lemma_u64_written_then_read, read_i32, read_u32, read_u64,
    u32_le, u64_le, unsigned, write_i32, write_u32, write_u64,
};

verus! {

/// Size in bytes of a [`SlotKey`].
pub const SLOT_KEY_SIZE: usize = 4;

/// Size in bytes of an [`IoValue`].
pub const IO_VALUE_SIZE: usize = 16;

/// Size in bytes of a [`SyscallKey`].
pub const SYSCALL_KEY_SIZE: usize = 16;

/// Size in bytes of a [`SyscallValue`].
pub const SYSCALL_VALUE_SIZE: usize = 24;

/// Size in bytes of a [`FileHandle`].
pub const FILE_HANDLE_SIZE: usize = 16;

/// Size in bytes of an [`Event`].
pub const EVENT_SIZE: usize = 40;

/// Length of the command name carried by an [`Event`].
pub const COMM_LEN: usize = 16;

/// A buffer whose length is not the declared size of the record asked for.
#[derive(Clone, Copy, Debug, PartialEq, Eq)]
pub struct DecodeError {
    /// The declared size of the record.
    pub expected: usize,
    /// The length of the buffer that was offered.
    pub actual: usize,
}

/// What decoding a buffer of `actual` bytes as a record of `expected` bytes
/// reports when the two differ.
pub open spec fn length_mismatch(expected: usize, actual: nat) -> DecodeError {
    DecodeError { expected, actual: actual as usize }
}

/// Key of the single slot of the I/O counter table.
#[derive(Clone, Copy, Debug, PartialEq, Eq)]
pub struct SlotKey {
    pub value: u32,
}

impl SlotKey {
    /// The record spelled by `bytes`.
    pub open spec fn from_bytes(bytes: Seq<u8>) -> SlotKey {
        SlotKey { value: le_u32(bytes, 0) }
    }

    /// The bytes that spell this record.
    pub open spec fn to_bytes(self) -> Seq<u8> {
        u32_le(self.value)
    }

    /// Decodes a key from a buffer of exactly [`SLOT_KEY_SIZE`] bytes.
    pub fn decode(bytes: &[u8]) -> (result: Result<SlotKey, DecodeError>)
        ensures
            bytes.len() == SLOT_KEY_SIZE ==> result == Ok::<SlotKey, DecodeError>(
                SlotKey::from_bytes(bytes@),
            ),
            bytes.len() != SLOT_KEY_SIZE ==> result == Err::<SlotKey, DecodeError>(
                length_mismatch(SLOT_KEY_SIZE, bytes@.len()),
            ),
    {
        if bytes.len() != SLOT_KEY_SIZE {
            return Err(DecodeError { expected: SLOT_KEY_SIZE, actual: bytes.len() });
        }
        Ok(SlotKey { value: read_u32(bytes, 0) })
    }

    /// Encodes the key into [`SLOT_KEY_SIZE`] bytes.
    pub fn encode(&self) -> (bytes: Vec<u8>)
        ensures
            bytes@ == self.to_bytes(),
            bytes.len() == SLOT_KEY_SIZE,
    {
        let mut out: Vec<u8> = Vec::new();
        write_u32(&mut out, self.value);
        out
    }

    /// Decoding a buffer of the declared size and encoding the record gives
    /// the buffer back.
    pub proof fn lemma_decode_then_encode(bytes: Seq<u8>)
        requires
            bytes.len() == SLOT_KEY_SIZE,
        ensures
            SlotKey::from_bytes(bytes).to_bytes() == bytes,
    {
        lemma_u32_read_then_written(bytes, 0);
        assert(bytes.subrange(0, 4) =~= bytes);
    }

    /// Encoding a record gives a buffer of the declared size that decodes to
    /// the record.
    pub proof fn lemma_encode_then_decode(self)
        ensures
            self.to_bytes().len() == SLOT_KEY_SIZE,
            SlotKey::from_bytes(self.to_bytes()) == self,
    {
        lemma_u32_written_then_read(self.value);
    }
}

/// Counters of the I/O table: operations seen and bytes they moved.
#[derive(Clone, Copy, Debug, PartialEq, Eq)]
pub struct IoValue {
    pub count: u64,
    pub processed_bytes: u64,
}

impl IoValue {
    /// The record spelled by `bytes`.
    pub open spec fn from_bytes(bytes: Seq<u8>) -> IoValue {
        IoValue { count: le_u64(bytes, 0), processed_bytes: le_u64(bytes, 8) }
    }

    /// The bytes that spell this record.
    pub open spec fn to_bytes(self) -> Seq<u8> {
        u64_le(self.count) + u64_le(self.processed_bytes)
    }

    /// The record whose counters are all zero.
    pub open spec fn spec_zero() -> IoValue {
        IoValue { count: 0, processed_bytes: 0 }
    }

    /// The record whose counters are all zero.
    #[verifier::when_used_as_spec(spec_zero)]
    pub fn zero() -> (value: IoValue)
        ensures
            value == IoValue::spec_zero(),
    {
        IoValue { count: 0, processed_bytes: 0 }
    }

    /// Decodes a value from a buffer of exactly [`IO_VALUE_SIZE`] bytes.
    pub fn decode(bytes: &[u8]) -> (result: Result<IoValue, DecodeError>)
        ensures
            bytes.len() == IO_VALUE_SIZE ==> result == Ok::<IoValue, DecodeError>(
                IoValue::from_bytes(bytes@),
            ),
            bytes.len() != IO_VALUE_SIZE ==> result == Err::<IoValue, DecodeError>(
                length_mismatch(IO_VALUE_SIZE, bytes@.len()),
            ),
    {
        if bytes.len() != IO_VALUE_SIZE {
            return Err(DecodeError { expected: IO_VALUE_SIZE, actual: bytes.len() });
        }
        Ok(IoValue { count: read_u64(bytes, 0), processed_bytes: read_u64(bytes, 8) })
    }

    /// Encodes the value into [`IO_VALUE_SIZE`] bytes.
    pub fn encode(&self) -> (bytes: Vec<u8>)
        ensures
            bytes@ == self.to_bytes(),
            bytes.len() == IO_VALUE_SIZE,
    {
        let mut out: Vec<u8> = Vec::new();
        write_u64(&mut out, self.count);
        write_u64(&mut out, self.processed_bytes);
        proof {
            lemma_u64_written_then_read(self.count);
            lemma_u64_written_then_read(self.processed_bytes);
        }
        out
    }

    /// Decoding a buffer of the declared size and encoding the record gives
    /// the buffer back.
    pub proof fn lemma_decode_then_encode(bytes: Seq<u8>)
        requires
            bytes.len() == IO_VALUE_SIZE,
        ensures
            IoValue::from_bytes(bytes).to_bytes() == bytes,
    {
        lemma_u64_read_then_written(bytes, 0);
        lemma_u64_read_then_written(bytes, 8);
        assert(bytes.subrange(0, 8) + bytes.subrange(8, 16) =~= bytes);
    }

    /// Encoding a record gives a buffer of the declared size that decodes to
    /// the record.
    pub proof fn lemma_encode_then_decode(self)
        ensures
            self.to_bytes().len() == IO_VALUE_SIZE,
            IoValue::from_bytes(self.to_bytes()) == self,
    {
        lemma_u64_written_then_read(self.count);
        lemma_u64_written_then_read(self.processed_bytes);
        lemma_u64_of_concat(u64_le(self.count), u64_le(self.processed_bytes), 0);
        lemma_u64_of_concat(u64_le(self.count), u64_le(self.processed_bytes), 8);
    }
}

/// Key of the per-thread, per-syscall counter table.
///
/// `reserved` holds the four bytes that the layout leaves between the thread
/// id and the syscall number.
#[derive(Clone, Copy, Debug, PartialEq, Eq)]
pub struct SyscallKey {
    pub tid: u32,
    pub reserved: u32,
    pub syscall_nr: u64,
}

impl SyscallKey {
    /// The record spelled by `bytes`.
    pub open spec fn from_bytes(bytes: Seq<u8>) -> SyscallKey {
        SyscallKey {
            tid: le_u32(bytes, 0),
            reserved: le_u32(bytes, 4),
            syscall_nr: le_u64(bytes, 8),
        }
    }

    /// The bytes that spell this record.
    pub open spec fn to_bytes(self) -> Seq<u8> {
        u32_le(self.tid) + u32_le(self.reserved) + u64_le(self.syscall_nr)
    }

    /// The key of thread `tid` and syscall `syscall_nr`, with the gap zeroed.
    pub fn new(tid: u32, syscall_nr: u64) -> (key: SyscallKey)
        ensures
            key == (SyscallKey { tid, reserved: 0, syscall_nr }),
    {
        SyscallKey { tid, reserved: 0, syscall_nr }
    }

    /// Decodes a key from a buffer of exactly [`SYSCALL_KEY_SIZE`] bytes.
    pub fn decode(bytes: &[u8]) -> (result: Result<SyscallKey, DecodeError>)
        ensures
            bytes.len() == SYSCALL_KEY_SIZE ==> result == Ok::<SyscallKey, DecodeError>(
                SyscallKey::from_bytes(bytes@),
            ),
            bytes.len() != SYSCALL_KEY_SIZE ==> result == Err::<SyscallKey, DecodeError>(
                length_mismatch(SYSCALL_KEY_SIZE, bytes@.len()),
            ),
    {
        if bytes.len() != SYSCALL_KEY_SIZE {
            return Err(DecodeError { expected: SYSCALL_KEY_SIZE, actual: bytes.len() });
        }
        Ok(
            SyscallKey {
                tid: read_u32(bytes, 0),
                reserved: read_u32(bytes, 4),
                syscall_nr: read_u64(bytes, 8),
            },
        )
    }

    /// Encodes the key into [`SYSCALL_KEY_SIZE`] bytes.
    pub fn encode(&self) -> (bytes: Vec<u8>)
        ensures
            bytes@ == self.to_bytes(),
            bytes.len() == SYSCALL_KEY_SIZE,
    {
        let mut out: Vec<u8> = Vec::new();
        write_u32(&mut out, self.tid);
        write_u32(&mut out, self.reserved);
        write_u64(&mut out, self.syscall_nr);
        proof {
            lemma_u64_written_then_read(self.syscall_nr);
        }
        out
    }

    /// Decoding a buffer of the declared size and encoding the record gives
    /// the buffer back.
    pub proof fn lemma_decode_then_encode(bytes: Seq<u8>)
        requires
            bytes.len() == SYSCALL_KEY_SIZE,
        ensures
            SyscallKey::from_bytes(bytes).to_bytes() == bytes,
    {
        lemma_u32_read_then_written(bytes, 0);
        lemma_u32_read_then_written(bytes, 4);
        lemma_u64_read_then_written(bytes, 8);
        assert(bytes.subrange(0, 4) + bytes.subrange(4, 8) + bytes.subrange(8, 16) =~= bytes);
    }

    /// Encoding a record gives a buffer of the declared size that decodes to
    /// the record.
    pub proof fn lemma_encode_then_decode(self)
        ensures
            self.to_bytes().len() == SYSCALL_KEY_SIZE,
            SyscallKey::from_bytes(self.to_bytes()) == self,
    {
        let tid = u32_le(self.tid);
        let reserved = u32_le(self.reserved);
        let nr = u64_le(self.syscall_nr);
        lemma_u32_written_then_read(self.tid);
        lemma_u32_written_then_read(self.reserved);
        lemma_u64_written_then_read(self.syscall_nr);
        lemma_u32_of_concat(tid + reserved, nr, 0);
        lemma_u32_of_concat(tid + reserved, nr, 4);
        lemma_u32_of_concat(tid, reserved, 0);
        lemma_u32_of_concat(tid, reserved, 4);
        lemma_u64_of_concat(tid + reserved, nr, 8);
    }
}

/// Counters of the syscall table.
///
/// `enter_ns` belongs to the instrumentation: it is carried, never read.
#[derive(Clone, Copy, Debug, PartialEq, Eq)]
pub struct SyscallValue {
    pub count: u64,
    pub elapsed_ns: u64,
    pub enter_ns: u64,
}

impl SyscallValue {
    /// The record spelled by `bytes`.
    pub open spec fn from_bytes(bytes: Seq<u8>) -> SyscallValue {
        SyscallValue {
            count: le_u64(bytes, 0),
            elapsed_ns: le_u64(bytes, 8),
            enter_ns: le_u64(bytes, 16),
        }
    }

    /// The bytes that spell this record.
    pub open spec fn to_bytes(self) -> Seq<u8> {
        u64_le(self.count) + u64_le(self.elapsed_ns) + u64_le(self.enter_ns)
    }

    /// Decodes a value from a buffer of exactly [`SYSCALL_VALUE_SIZE`] bytes.
    pub fn decode(bytes: &[u8]) -> (result: Result<SyscallValue, DecodeError>)
        ensures
            bytes.len() == SYSCALL_VALUE_SIZE ==> result == Ok::<SyscallValue, DecodeError>(
                SyscallValue::from_bytes(bytes@),
            ),
            bytes.len() != SYSCALL_VALUE_SIZE ==> result == Err::<SyscallValue, DecodeError>(
                length_mismatch(SYSCALL_VALUE_SIZE, bytes@.len()),
            ),
    {
        if bytes.len() != SYSCALL_VALUE_SIZE {
            return Err(DecodeError { expected: SYSCALL_VALUE_SIZE, actual: bytes.len() });
        }
        Ok(
            SyscallValue {
                count: read_u64(bytes, 0),
                elapsed_ns: read_u64(bytes, 8),
                enter_ns: read_u64(bytes, 16),
            },
        )
    }

    /// Encodes the value into [`SYSCALL_VALUE_SIZE`] bytes.
    pub fn encode(&self) -> (bytes: Vec<u8>)
        ensures
            bytes@ == self.to_bytes(),
            bytes.len() == SYSCALL_VALUE_SIZE,
    {
        let mut out: Vec<u8> = Vec::new();
        write_u64(&mut out, self.count);
        write_u64(&mut out, self.elapsed_ns);
        write_u64(&mut out, self.enter_ns);
        proof {
            lemma_u64_written_then_read(self.count);
            lemma_u64_written_then_read(self.elapsed_ns);
            lemma_u64_written_then_read(self.enter_ns);
        }
        out
    }

    /// Decoding a buffer of the declared size and encoding the record gives
    /// the buffer back.
    pub proof fn lemma_decode_then_encode(bytes: Seq<u8>)
        requires
            bytes.len() == SYSCALL_VALUE_SIZE,
        ensures
            SyscallValue::from_bytes(bytes).to_bytes() == bytes,
    {
        lemma_u64_read_then_written(bytes, 0);
        lemma_u64_read_then_written(bytes, 8);
        lemma_u64_read_then_written(bytes, 16);
        assert(bytes.subrange(0, 8) + bytes.subrange(8, 16) + bytes.subrange(16, 24) =~= bytes);
    }

    /// Encoding a record gives a buffer of the declared size that decodes to
    /// the record.
    pub proof fn lemma_encode_then_decode(self)
        ensures
            self.to_bytes().len() == SYSCALL_VALUE_SIZE,
            SyscallValue::from_bytes(self.to_bytes()) == self,
    {
        let count = u64_le(self.count);
        let elapsed = u64_le(self.elapsed_ns);
        let enter = u64_le(self.enter_ns);
        lemma_u64_written_then_read(self.count);
        lemma_u64_written_then_read(self.elapsed_ns);
        lemma_u64_written_then_read(self.enter_ns);
        lemma_u64_of_concat(count + elapsed, enter, 0);
        lemma_u64_of_concat(count + elapsed, enter, 8);
        lemma_u64_of_concat(count + elapsed, enter, 16);
        lemma_u64_of_concat(count, elapsed, 0);
        lemma_u64_of_concat(count, elapsed, 8);
    }
}

/// The encoding that the operating system gives of a directory's file
/// handle: the byte count of the handle, its type tag, and, for a handle of
/// eight bytes, the identifier it carries.
#[derive(Clone, Copy, Debug, PartialEq, Eq)]
pub struct FileHandle {
    pub handle_bytes: u32,
    pub handle_type: i32,
    pub cgid: u64,
}

impl FileHandle {
    /// The record spelled by `bytes`.
    pub open spec fn from_bytes(bytes: Seq<u8>) -> FileHandle {
        FileHandle {
            handle_bytes: le_u32(bytes, 0),
            handle_type: le_i32(bytes, 4),
            cgid: le_u64(bytes, 8),
        }
    }

    /// The bytes that spell this record.
    pub open spec fn to_bytes(self) -> Seq<u8> {
        u32_le(self.handle_bytes) + i32_le(self.handle_type) + u64_le(self.cgid)
    }

    /// Decodes a handle from a buffer of exactly [`FILE_HANDLE_SIZE`] bytes.
    pub fn decode(bytes: &[u8]) -> (result: Result<FileHandle, DecodeError>)
        ensures
            bytes.len() == FILE_HANDLE_SIZE ==> result == Ok::<FileHandle, DecodeError>(
                FileHandle::from_bytes(bytes@),
            ),
            bytes.len() != FILE_HANDLE_SIZE ==> result == Err::<FileHandle, DecodeError>(
                length_mismatch(FILE_HANDLE_SIZE, bytes@.len()),
            ),
    {
        if bytes.len() != FILE_HANDLE_SIZE {
            return Err(DecodeError { expected: FILE_HANDLE_SIZE, actual: bytes.len() });
        }
        Ok(
            FileHandle {
                handle_bytes: read_u32(bytes, 0),
                handle_type: read_i32(bytes, 4),
                cgid: read_u64(bytes, 8),
            },
        )
    }

    /// Encodes the handle into [`FILE_HANDLE_SIZE`] bytes.
    pub fn encode(&self) -> (bytes: Vec<u8>)
        ensures
            bytes@ == self.to_bytes(),
            bytes.len() == FILE_HANDLE_SIZE,
    {
        let mut out: Vec<u8> = Vec::new();
        write_u32(&mut out, self.handle_bytes);
        write_i32(&mut out, self.handle_type);
        write_u64(&mut out, self.cgid);
        proof {
            lemma_u64_written_then_read(self.cgid);
        }
        out
    }

    /// Decoding a buffer of the declared size and encoding the record gives
    /// the buffer back.
    pub proof fn lemma_decode_then_encode(bytes: Seq<u8>)
        requires
            bytes.len() == FILE_HANDLE_SIZE,
        ensures
            FileHandle::from_bytes(bytes).to_bytes() == bytes,
    {
        lemma_u32_read_then_written(bytes, 0);
        lemma_u32_read_then_written(bytes, 4);
        lemma_u64_read_then_written(bytes, 8);
        lemma_signed_unsigned(le_u32(bytes, 4), 0);
        assert(bytes.subrange(0, 4) + bytes.subrange(4, 8) + bytes.subrange(8, 16) =~= bytes);
    }

    /// Encoding a record gives a buffer of the declared size that decodes to
    /// the record.
    pub proof fn lemma_encode_then_decode(self)
        ensures
            self.to_bytes().len() == FILE_HANDLE_SIZE,
            FileHandle::from_bytes(self.to_bytes()) == self,
    {
        let count = u32_le(self.handle_bytes);
        let tag = i32_le(self.handle_type);
        let id = u64_le(self.cgid);
        lemma_u32_written_then_read(self.handle_bytes);
        lemma_u32_written_then_read(unsigned(self.handle_type));
        lemma_signed_unsigned(0, self.handle_type);
        lemma_u64_written_then_read(self.cgid);
        lemma_u32_of_concat(count + tag, id, 0);
        lemma_u32_of_concat(count + tag, id, 4);
        lemma_u32_of_concat(count, tag, 0);
        lemma_u32_of_concat(count, tag, 4);
        lemma_u64_of_concat(count + tag, id, 8);
    }
}

/// One namespace-change occurrence reported by the instrumentation.
///
/// `reserved` and `tail` hold the bytes that the layout leaves after `pid`
/// and after `comm`. `comm` is the command name, padded with NUL bytes.
#[derive(Clone, Copy, Debug, PartialEq, Eq)]
pub struct Event {
    pub pid: u32,
    pub reserved: u32,
    pub flags: u64,
    pub ret: i32,
    pub comm: [u8; COMM_LEN],
    pub tail: u32,
}

/// The mathematical content of an [`Event`].
pub struct EventView {
    pub pid: u32,
    pub reserved: u32,
    pub flags: u64,
    pub ret: i32,
    pub comm: Seq<u8>,
    pub tail: u32,
}

impl View for Event {
    type V = EventView;

    open spec fn view(&self) -> EventView {
        EventView {
            pid: self.pid,
            reserved: self.reserved,
            flags: self.flags,
            ret: self.ret,
            comm: self.comm@,
            tail: self.tail,
        }
    }
}

impl EventView {
    /// The event spelled by `bytes`.
    pub open spec fn from_bytes(bytes: Seq<u8>) -> EventView {
        EventView {
            pid: le_u32(bytes, 0),
            reserved: le_u32(bytes, 4),
            flags: le_u64(bytes, 8),
            ret: le_i32(bytes, 16),
            comm: bytes.subrange(20, 36),
            tail: le_u32(bytes, 36),
        }
    }

    /// The bytes that spell this event.
    pub open spec fn to_bytes(self) -> Seq<u8> {
        u32_le(self.pid) + u32_le(self.reserved) + u64_le(self.flags) + i32_le(self.ret)
            + self.comm + u32_le(self.tail)
    }

    /// Decoding a buffer of the declared size and encoding the event gives
    /// the buffer back.
    pub proof fn lemma_decode_then_encode(bytes: Seq<u8>)
        requires
            bytes.len() == EVENT_SIZE,
        ensures
            EventView::from_bytes(bytes).to_bytes() == bytes,
    {
        lemma_u32_read_then_written(bytes, 0);
        lemma_u32_read_then_written(bytes, 4);
        lemma_u64_read_then_written(bytes, 8);
        lemma_u32_read_then_written(bytes, 16);
        lemma_signed_unsigned(le_u32(bytes, 16), 0);
        lemma_u32_read_then_written(bytes, 36);
        assert(bytes.subrange(0, 4) + bytes.subrange(4, 8) + bytes.subrange(8, 16)
            + bytes.subrange(16, 20) + bytes.subrange(20, 36) + bytes.subrange(36, 40)
            =~= bytes);
    }

    /// Encoding an event gives a buffer of the declared size that decodes to
    /// the event.
    pub proof fn lemma_encode_then_decode(self)
        requires
            self.comm.len() == COMM_LEN,
        ensures
            self.to_bytes().len() == EVENT_SIZE,
            EventView::from_bytes(self.to_bytes()) == self,
    {
        let pid = u32_le(self.pid);
        let reserved = u32_le(self.reserved);
        let flags = u64_le(self.flags);
        let ret = i32_le(self.ret);
        let tail = u32_le(self.tail);
        lemma_u32_written_then_read(self.pid);
        lemma_u32_written_then_read(self.reserved);
        lemma_u64_written_then_read(self.flags);
        lemma_u32_written_then_read(unsigned(self.ret));
        lemma_signed_unsigned(0, self.ret);
        lemma_u32_written_then_read(self.tail);
        let a = pid + reserved;
        let b = a + flags;
        let c = b + ret;
        let d = c + self.comm;
        let all = d + tail;
        lemma_u32_of_concat(pid, reserved, 0);
        lemma_u32_of_concat(pid, reserved, 4);
        lemma_u32_of_concat(a, flags, 0);
        lemma_u32_of_concat(a, flags, 4);
        lemma_u64_of_concat(a, flags, 8);
        lemma_u32_of_concat(b, ret, 0);
        lemma_u32_of_concat(b, ret, 4);
        lemma_u64_of_concat(b, ret, 8);
        lemma_u32_of_concat(b, ret, 16);
        lemma_u32_of_concat(c, self.comm, 0);
        lemma_u32_of_concat(c, self.comm, 4);
        lemma_u64_of_concat(c, self.comm, 8);
        lemma_u32_of_concat(c, self.comm, 16);
        lemma_u32_of_concat(d, tail, 0);
        lemma_u32_of_concat(d, tail, 4);
        lemma_u64_of_concat(d, tail, 8);
        lemma_u32_of_concat(d, tail, 16);
        lemma_u32_of_concat(d, tail, 36);
        assert(all.subrange(20, 36) =~= self.comm);
    }
}

impl Event {
    /// The event of process `pid` with the given flags, result and command
    /// name, with the gaps of the layout zeroed.
    pub fn new(pid: u32, flags: u64, ret: i32, comm: [u8; COMM_LEN]) -> (event: Event)
        ensures
            event == (Event { pid, reserved: 0, flags, ret, comm, tail: 0 }),
    {
        Event { pid, reserved: 0, flags, ret, comm, tail: 0 }
    }

    /// Decodes an event from a buffer of exactly [`EVENT_SIZE`] bytes.
    pub fn decode(bytes: &[u8]) -> (result: Result<Event, DecodeError>)
        ensures
            bytes.len() == EVENT_SIZE ==> result is Ok && result.unwrap()@
                == EventView::from_bytes(bytes@),
            bytes.len() != EVENT_SIZE ==> result == Err::<Event, DecodeError>(
                length_mismatch(EVENT_SIZE, bytes@.len()),
            ),
    {
        if bytes.len() != EVENT_SIZE {
            return Err(DecodeError { expected: EVENT_SIZE, actual: bytes.len() });
        }
        let comm: [u8; COMM_LEN] = [
            bytes[20],
            bytes[21],
            bytes[22],
            bytes[23],
            bytes[24],
            bytes[25],
            bytes[26],
            bytes[27],
            bytes[28],
            bytes[29],
            bytes[30],
            bytes[31],
            bytes[32],
            bytes[33],
            bytes[34],
            bytes[35],
        ];
        assert(comm@ =~= bytes@.subrange(20, 36));
        Ok(
            Event {
                pid: read_u32(bytes, 0),
                reserved: read_u32(bytes, 4),
                flags: read_u64(bytes, 8),
                ret: read_i32(bytes, 16),
                comm,
                tail: read_u32(bytes, 36),
            },
        )
    }

    /// Encodes the event into [`EVENT_SIZE`] bytes.
    pub fn encode(&self) -> (bytes: Vec<u8>)
        ensures
            bytes@ == self@.to_bytes(),
            bytes.len() == EVENT_SIZE,
    {
        let mut out: Vec<u8> = Vec::new();
        write_u32(&mut out, self.pid);
        write_u32(&mut out, self.reserved);
        write_u64(&mut out, self.flags);
        write_i32(&mut out, self.ret);
        proof {
            lemma_u64_written_then_read(self.flags);
        }
        let ghost head = out@;
        let mut i: usize = 0;
        while i < COMM_LEN
            invariant
                i <= COMM_LEN,
                head.len() == 20,
                out@ == head + self.comm@.subrange(0, i as int),
            decreases COMM_LEN - i,
        {
            out.push(self.comm[i]);
            i += 1;
            assert(out@ =~= head + self.comm@.subrange(0, i as int));
        }
        assert(self.comm@.subrange(0, COMM_LEN as int) =~= self.comm@);
        write_u32(&mut out, self.tail);
        out
    }
}

} // verus!
