//! Edit records: decoding one from patch bytes and replaying it on a buffer.

use crate::ips::wire::{be16, be24, decode_record, record_fits, record_len, write_at, Edit, Payload};
use vstd::prelude::*;
use vstd::slice::{slice_subrange, slice_to_vec};

verus! {

/// What a record writes.
#[derive(Debug, PartialEq, Eq)]
pub enum Data {
    /// Raw bytes to write.
    Standard(Vec<u8>),
    /// A run: `value`, written `size` times.
    RLE { size: u16, value: u8 },
}

impl View for Data {
    type V = Payload;

    open spec fn view(&self) -> Payload {
        match self {
            Data::Standard(bytes) => Payload::Literal(bytes@),
            Data::RLE { size, value } => Payload::Fill { count: *size as nat, value: *value },
        }
    }
}

/// One edit record of a patch.
#[derive(Debug, PartialEq, Eq)]
pub struct Record {
    offset: u32,
    data: Data,
}

impl View for Record {
    type V = Edit;

    closed spec fn view(&self) -> Edit {
        Edit { offset: self.offset as nat, payload: self.data@ }
    }
}

/// Writes `value` at `index`: over the byte that is there, or behind the last
/// byte where `index` is the length of the buffer.
fn put(buffer: &mut Vec<u8>, index: usize, value: u8)
    requires
        index <= old(buffer)@.len(),
    ensures
        final(buffer)@ == write_at(old(buffer)@, index as int, seq![value]),
{
    if index == buffer.len() {
        buffer.push(value);
    } else {
        buffer.set(index, value);
    }
    assert(buffer@ =~= write_at(old(buffer)@, index as int, seq![value]));
}

/// Writing `bytes` up to position `k` and then the byte at `k` behind them
/// is writing `bytes` up to position `k + 1`.
proof fn lemma_write_next(buf: Seq<u8>, offset: int, bytes: Seq<u8>, k: int)
    requires
        0 <= offset <= buf.len(),
        0 <= k < bytes.len(),
    ensures
        write_at(write_at(buf, offset, bytes.subrange(0, k)), offset + k, seq![bytes[k]])
            == write_at(buf, offset, bytes.subrange(0, k + 1)),
{
    assert(write_at(write_at(buf, offset, bytes.subrange(0, k)), offset + k, seq![bytes[k]])
        =~= write_at(buf, offset, bytes.subrange(0, k + 1)));
}

impl Record {
    /// Whether the record can stand in a patch.
    pub open spec fn wf(&self) -> bool {
        self@.well_formed()
    }

    /// Decodes the record that starts at `start_index` of `file`, and returns
    /// it with the position directly behind it, where the next record starts.
    pub fn new(file: &[u8], start_index: usize) -> (r: (Self, usize))
        requires
            record_fits(file@, start_index as int),
        ensures
            r.0@ == decode_record(file@, start_index as int),
            r.1 == start_index + record_len(file@, start_index as int),
            r.0.wf(),
    {
        let mut index: usize = start_index;
        let ghost s = file@;

        let offset = Self::get_offset(slice_subrange(file, index, file.len()));
        index += 3;

        let data_size = Self::get_data_size(slice_subrange(file, index, file.len()));
        index += 2;

        let data = if data_size == 0 {
            Data::RLE {
                size: Self::get_data_size(slice_subrange(file, index, file.len())),
                value: file[index + 2],
            }
        } else {
            Data::Standard(slice_to_vec(slice_subrange(file, index, index + data_size as usize)))
        };

        if data_size == 0 {
            index += 3;
        } else {
            index += data_size as usize;
        }

        (Self { offset, data }, index)
    }

    /// Finds where the record that starts at `start_index` of `file` ends:
    /// the position directly behind it, or `None` where the record does not
    /// lie inside `file`.
    pub fn end_of(file: &[u8], start_index: usize) -> (end: Option<usize>)
        ensures
            end is Some <==> record_fits(file@, start_index as int),
            end is Some ==> end->Some_0 == start_index + record_len(file@, start_index as int),
    {
        if start_index > file.len() || file.len() - start_index < 5 {
            return None;
        }
        let size = Self::get_data_size(slice_subrange(file, start_index + 3, file.len()));
        let len: usize = if size == 0 {
            8
        } else {
            5 + size as usize
        };
        if file.len() - start_index < len {
            return None;
        }
        Some(start_index + len)
    }

    /// Reads the 24-bit big-endian offset that `bytes` begins with.
    pub fn get_offset(bytes: &[u8]) -> (offset: u32)
        requires
            bytes@.len() >= 3,
        ensures
            offset == be24(bytes@, 0),
    {
        let high = bytes[0] as u32;
        let mid = bytes[1] as u32;
        let low = bytes[2] as u32;
        assert(high << 16 == high * 0x1_0000) by (bit_vector)
            requires
                high < 0x100,
        ;
        assert(mid << 8 == mid * 0x100) by (bit_vector)
            requires
                mid < 0x100,
        ;
        (high << 16) + (mid << 8) + low
    }

    /// Reads the 16-bit big-endian size or count that `bytes` begins with.
    pub fn get_data_size(bytes: &[u8]) -> (size: u16)
        requires
            bytes@.len() >= 2,
        ensures
            size == be16(bytes@, 0),
    {
        let high = bytes[0] as u16;
        let low = bytes[1] as u16;
        assert(high << 8 == high * 0x100) by (bit_vector)
            requires
                high < 0x100,
        ;
        (high << 8) + low
    }

    /// Writes the record out as it stands in a patch: the offset in three
    /// bytes, then the size and the literal bytes, or a size of zero, the
    /// count and the repeated byte.
    pub fn encode(&self) -> (bytes: Vec<u8>)
        requires
            self.wf(),
        ensures
            bytes@ == self@.encoding(),
    {
        let mut bytes: Vec<u8> = Vec::new();
        bytes.push((self.offset / 0x1_0000) as u8);
        bytes.push((self.offset / 0x100 % 0x100) as u8);
        bytes.push((self.offset % 0x100) as u8);
        match &self.data {
            Data::Standard(data) => {
                bytes.push((data.len() / 0x100) as u8);
                bytes.push((data.len() % 0x100) as u8);
                let ghost head = bytes@;
                let mut k: usize = 0;
                while k < data.len()
                    invariant
                        k <= data.len(),
                        bytes@ == head + data@.subrange(0, k as int),
                    decreases data.len() - k,
                {
                    bytes.push(data[k]);
                    k += 1;
                    assert(bytes@ =~= head + data@.subrange(0, k as int));
                }
                assert(data@.subrange(0, k as int) =~= data@);
                assert(bytes@ =~= self@.encoding());
            },
            Data::RLE { size, value } => {
                bytes.push(0);
                bytes.push(0);
                bytes.push((*size / 0x100) as u8);
                bytes.push((*size % 0x100) as u8);
                bytes.push(*value);
                assert(bytes@ =~= self@.encoding());
            },
        }
        bytes
    }

    /// Where in the target the record begins to write.
    pub fn offset(&self) -> (offset: u32)
        ensures
            offset == self@.offset,
    {
        self.offset
    }

    /// What the record writes.
    pub fn data(&self) -> (data: &Data)
        ensures
            data@ == self@.payload,
    {
        &self.data
    }

    /// How many bytes the record writes.
    pub fn len(&self) -> (len: usize)
        ensures
            len == self@.payload.bytes().len(),
    {
        match &self.data {
            Data::Standard(data) => data.len(),
            Data::RLE { size, value } => *size as usize,
        }
    }

    /// Replays the record on `buffer`: its bytes are written one by one from
    /// the record's offset on, each over the byte that is there or, at the
    /// end of the buffer, behind the last one.
    pub fn apply_patch(&self, buffer: &mut Vec<u8>)
        requires
            self@.applies_to(old(buffer)@),
        ensures
            final(buffer)@ == self@.apply(old(buffer)@),
    {
        let mut index: usize = self.offset as usize;
        let ghost start = index as int;
        let ghost bytes = self@.payload.bytes();

        assert(buffer@ =~= write_at(old(buffer)@, start, bytes.subrange(0, 0)));
        match &self.data {
            Data::Standard(data) => {
                let mut k: usize = 0;
                while k < data.len()
                    invariant
                        bytes == data@,
                        0 <= start <= old(buffer)@.len(),
                        k <= data.len(),
                        index == start + k,
                        index <= buffer@.len(),
                        buffer@ == write_at(old(buffer)@, start, bytes.subrange(0, k as int)),
                    decreases data.len() - k,
                {
                    proof {
                        lemma_write_next(old(buffer)@, start, bytes, k as int);
                    }
                    put(buffer, index, data[k]);
                    assert(index < buffer.len());
                    index += 1;
                    k += 1;
                }
                assert(bytes.subrange(0, k as int) =~= bytes);
            },
            Data::RLE { size, value } => {
                let mut k: u16 = 0;
                while k < *size
                    invariant
                        bytes == Seq::new(*size as nat, |i: int| *value),
                        0 <= start <= old(buffer)@.len(),
                        k <= *size,
                        index == start + k,
                        index <= buffer@.len(),
                        buffer@ == write_at(old(buffer)@, start, bytes.subrange(0, k as int)),
                    decreases *size - k,
                {
                    proof {
                        lemma_write_next(old(buffer)@, start, bytes, k as int);
                    }
                    put(buffer, index, *value);
                    assert(index < buffer.len());
                    index += 1;
                    k += 1;
                }
                assert(bytes.subrange(0, k as int) =~= bytes);
            },
        }
    }
}

} // verus!
