//! The patch container: framing, the ordered records, and their replay.

use crate::ips::error::{InvalidFormatCause, InvalidFormatError};
use crate::ips::record::Record;
use crate::ips::wire::{
    decodable, decode_stream, has_header, has_trailer, header, replay, replayable, stream_fits,
    trailer, Edit,
};
use vstd::prelude::*;

verus! {

/// The edits that `records` stand for, in the same order.
pub open spec fn edits_of(records: Seq<Record>) -> Seq<Edit> {
    Seq::new(records.len(), |i: int| records[i]@)
}

/// Whether `bytes` begins with the marker `PATCH`.
fn starts_with_header(bytes: &[u8]) -> (found: bool)
    requires
        bytes@.len() >= 5,
    ensures
        found == has_header(bytes@),
{
    let found = bytes[0] == 0x50 && bytes[1] == 0x41 && bytes[2] == 0x54 && bytes[3] == 0x43
        && bytes[4] == 0x48;
    proof {
        if found {
            assert(bytes@.subrange(0, 5) =~= header());
        } else {
            let head = bytes@.subrange(0, 5);
            assert(head[0] == bytes@[0] && head[1] == bytes@[1] && head[2] == bytes@[2] && head[3]
                == bytes@[3] && head[4] == bytes@[4]);
        }
    }
    found
}

/// Whether `bytes` ends with the marker `EOF`.
fn ends_with_trailer(bytes: &[u8]) -> (found: bool)
    requires
        bytes@.len() >= 3,
    ensures
        found == has_trailer(bytes@),
{
    let eof_start = bytes.len() - 3;
    let found = bytes[eof_start] == 0x45 && bytes[eof_start + 1] == 0x4F && bytes[eof_start + 2]
        == 0x46;
    proof {
        let tail = bytes@.subrange(bytes@.len() - 3, bytes@.len() as int);
        if found {
            assert(tail =~= trailer());
        } else {
            assert(tail[0] == bytes@[eof_start as int] && tail[1] == bytes@[eof_start + 1]
                && tail[2] == bytes@[eof_start + 2]);
        }
    }
    found
}

/// A decoded patch: the bytes it was read from and its records in file order.
pub struct IPS {
    buffer: Vec<u8>,
    records: Vec<Record>,
}

impl View for IPS {
    type V = Seq<Edit>;

    closed spec fn view(&self) -> Seq<Edit> {
        edits_of(self.records@)
    }
}

impl IPS {
    /// The bytes that the patch was decoded from.
    pub closed spec fn source(&self) -> Seq<u8> {
        self.buffer@
    }

    /// Whether the patch is what its source decodes to: the source carries
    /// both markers, and the records are those of the stream between them,
    /// in order, each one well formed.
    pub open spec fn wf(&self) -> bool {
        &&& decodable(self.source())
        &&& has_header(self.source())
        &&& has_trailer(self.source())
        &&& self@ == decode_stream(self.source(), 5, self.source().len() - 3)
        &&& forall|i: int| 0 <= i < self@.len() ==> (#[trigger] self@[i]).well_formed()
    }

    /// Decodes a patch from its bytes. The header is checked first, then the
    /// trailer; the records between them are decoded one after the other,
    /// each beginning where the one before ended.
    pub fn parse(input: Vec<u8>) -> (result: Result<Self, InvalidFormatError>)
        requires
            decodable(input@),
        ensures
            !has_header(input@) ==> result is Err && result->Err_0.cause()
                == InvalidFormatCause::MissingHeader,
            has_header(input@) && !has_trailer(input@) ==> result is Err
                && result->Err_0.cause() == InvalidFormatCause::MissingEOF,
            has_header(input@) && has_trailer(input@) ==> result is Ok && result->Ok_0.wf()
                && result->Ok_0.source() == input@,
    {
        let mut ips = Self { buffer: input, records: Vec::new() };

        if !starts_with_header(ips.buffer.as_slice()) {
            return Err(InvalidFormatError::new(InvalidFormatCause::MissingHeader));
        }
        let eof_start = ips.buffer.len() - 3;
        if !ends_with_trailer(ips.buffer.as_slice()) {
            return Err(InvalidFormatError::new(InvalidFormatCause::MissingEOF));
        }
        let mut index: usize = 5;
        assert(edits_of(ips.records@) + decode_stream(ips.buffer@, 5, eof_start as int)
            =~= decode_stream(ips.buffer@, 5, eof_start as int));
        while index < eof_start
            invariant
                ips.buffer@ == input@,
                eof_start == input@.len() - 3,
                5 <= index <= input@.len(),
                stream_fits(input@, index as int, eof_start as int),
                decode_stream(input@, 5, eof_start as int) == edits_of(ips.records@)
                    + decode_stream(input@, index as int, eof_start as int),
                forall|i: int| 0 <= i < ips.records@.len() ==> (#[trigger] ips.records@[i]).wf(),
            decreases input@.len() - index,
        {
            let ghost before = ips.records@;
            let (record, next_index) = Record::new(ips.buffer.as_slice(), index);
            ips.records.push(record);
            assert(edits_of(ips.records@) =~= edits_of(before) + seq![record@]);
            assert(edits_of(ips.records@) + decode_stream(
                input@,
                next_index as int,
                eof_start as int,
            ) =~= edits_of(before) + decode_stream(input@, index as int, eof_start as int));
            index = next_index;
        }
        assert(edits_of(ips.records@) + decode_stream(input@, index as int, eof_start as int)
            =~= edits_of(ips.records@));
        Ok(ips)
    }

    /// Replays every record, in file order, on `input` and returns the
    /// patched bytes.
    pub fn apply(&self, input: Vec<u8>) -> (output: Vec<u8>)
        requires
            replayable(self@, 0, input@),
        ensures
            output@ == replay(self@, 0, input@),
    {
        let mut buffer = input;
        let mut i: usize = 0;
        while i < self.records.len()
            invariant
                i <= self.records@.len(),
                self@ == edits_of(self.records@),
                replayable(self@, i as int, buffer@),
                replay(self@, i as int, buffer@) == replay(self@, 0, input@),
            decreases self.records@.len() - i,
        {
            self.records[i].apply_patch(&mut buffer);
            i += 1;
        }
        buffer
    }

    /// Tells whether `bytes` can be handed to [`IPS::parse`]: they hold at
    /// least eight bytes and, where both markers are present, no record
    /// between them reaches behind the end of `bytes`.
    pub fn is_decodable(bytes: &[u8]) -> (ok: bool)
        ensures
            ok == decodable(bytes@),
    {
        if bytes.len() < 8 {
            return false;
        }
        if !starts_with_header(bytes) || !ends_with_trailer(bytes) {
            return true;
        }
        let eof_start = bytes.len() - 3;
        let mut index: usize = 5;
        while index < eof_start
            invariant
                has_header(bytes@),
                has_trailer(bytes@),
                eof_start == bytes@.len() - 3,
                5 <= index <= bytes@.len(),
                stream_fits(bytes@, 5, eof_start as int) == stream_fits(
                    bytes@,
                    index as int,
                    eof_start as int,
                ),
            decreases bytes@.len() - index,
        {
            match Record::end_of(bytes, index) {
                None => {
                    return false;
                },
                Some(end) => {
                    index = end;
                },
            }
        }
        true
    }

    /// Tells whether the patch can be replayed on `input`: no record begins
    /// behind the end of the buffer as the records before it have left it.
    pub fn can_apply(&self, input: &[u8]) -> (ok: bool)
        requires
            self.wf(),
        ensures
            ok == replayable(self@, 0, input@),
    {
        let mut len: usize = input.len();
        let ghost mut buffer = input@;
        let mut i: usize = 0;
        while i < self.records.len()
            invariant
                i <= self.records@.len(),
                self@ == edits_of(self.records@),
                forall|j: int| 0 <= j < self@.len() ==> (#[trigger] self@[j]).well_formed(),
                len == buffer.len(),
                replayable(self@, i as int, buffer) == replayable(self@, 0, input@),
            decreases self.records@.len() - i,
        {
            let record = &self.records[i];
            assert(record@ == self@[i as int]);
            let offset = record.offset() as usize;
            if offset > len {
                return false;
            }
            let end = offset + record.len();
            if end > len {
                len = end;
            }
            proof {
                buffer = record@.apply(buffer);
            }
            i += 1;
        }
        true
    }

    /// The records of the patch, in file order.
    pub fn records(&self) -> (records: &Vec<Record>)
        ensures
            edits_of(records@) == self@,
    {
        &self.records
    }
}

} // verus!
