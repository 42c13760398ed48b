//! The wire format as mathematics: big-endian fields, the framing markers,
//! and what one record and a whole record stream decode to.

use vstd::prelude::*;

verus! {

/// The big-endian value of the two bytes of `s` that start at `at`.
pub open spec fn be16(s: Seq<u8>, at: int) -> int {
    s[at] * 0x100 + s[at + 1]
}

/// The big-endian value of the three bytes of `s` that start at `at`.
pub open spec fn be24(s: Seq<u8>, at: int) -> int {
    s[at] * 0x1_0000 + s[at + 1] * 0x100 + s[at + 2]
}

/// The leading marker, the ASCII letters `PATCH`.
pub open spec fn header() -> Seq<u8> {
    seq![0x50u8, 0x41u8, 0x54u8, 0x43u8, 0x48u8]
}

/// The closing marker, the ASCII letters `EOF`.
pub open spec fn trailer() -> Seq<u8> {
    seq![0x45u8, 0x4Fu8, 0x46u8]
}

/// Whether `s` begins with the leading marker.
pub open spec fn has_header(s: Seq<u8>) -> bool {
    s.len() >= 5 && s.subrange(0, 5) == header()
}

/// Whether `s` ends with the closing marker.
pub open spec fn has_trailer(s: Seq<u8>) -> bool {
    s.len() >= 3 && s.subrange(s.len() - 3, s.len() as int) == trailer()
}

/// What one record writes, as mathematics.
pub enum Payload {
    /// Raw bytes, written one after the other.
    Literal(Seq<u8>),
    /// One byte value, written `count` times.
    Fill { count: nat, value: u8 },
}

impl Payload {
    /// The bytes that the payload puts into the target, in order.
    pub open spec fn bytes(self) -> Seq<u8> {
        match self {
            Payload::Literal(data) => data,
            Payload::Fill { count, value } => Seq::new(count, |i: int| value),
        }
    }

    /// The payload as it stands in a patch, from the size field on.
    pub open spec fn encoding(self) -> Seq<u8> {
        match self {
            Payload::Literal(data) => seq![(data.len() / 0x100) as u8, (data.len() % 0x100) as u8]
                + data,
            Payload::Fill { count, value } => seq![
                0u8,
                0u8,
                (count / 0x100) as u8,
                (count % 0x100) as u8,
                value,
            ],
        }
    }

    /// Whether the payload can stand in a patch: a literal holds between one
    /// and 65535 bytes, a run repeats its byte at most 65535 times.
    pub open spec fn well_formed(self) -> bool {
        match self {
            Payload::Literal(data) => 1 <= data.len() <= 0xFFFF,
            Payload::Fill { count, value } => count <= 0xFFFF,
        }
    }
}

/// One edit of the target: where it begins and what it writes.
pub struct Edit {
    pub offset: nat,
    pub payload: Payload,
}

/// `buf` after `bytes` have been written over it from position `offset` on.
/// Positions before `offset` and behind the written range keep their bytes;
/// the result is longer than `buf` where the range ends behind it.
pub open spec fn write_at(buf: Seq<u8>, offset: int, bytes: Seq<u8>) -> Seq<u8> {
    Seq::new(
        if buf.len() >= offset + bytes.len() {
            buf.len()
        } else {
            (offset + bytes.len()) as nat
        },
        |i: int|
            if offset <= i < offset + bytes.len() {
                bytes[i - offset]
            } else {
                buf[i]
            },
    )
}

impl Edit {
    /// Whether the edit can stand in a patch.
    pub open spec fn well_formed(self) -> bool {
        self.offset <= 0xFF_FFFF && self.payload.well_formed()
    }

    /// Whether the edit can be replayed on `buf`: it begins inside `buf` or
    /// directly at its end, so that no gap would be left.
    pub open spec fn applies_to(self, buf: Seq<u8>) -> bool {
        self.offset <= buf.len()
    }

    /// `buf` after the edit.
    pub open spec fn apply(self, buf: Seq<u8>) -> Seq<u8> {
        write_at(buf, self.offset as int, self.payload.bytes())
    }

    /// The record of this edit as it stands in a patch.
    pub open spec fn encoding(self) -> Seq<u8> {
        seq![
            (self.offset / 0x1_0000) as u8,
            (self.offset / 0x100 % 0x100) as u8,
            (self.offset % 0x100) as u8,
        ] + self.payload.encoding()
    }
}

/// The size field of the record that starts at `at`.
pub open spec fn size_field(s: Seq<u8>, at: int) -> int {
    be16(s, at + 3)
}

/// How many bytes the record that starts at `at` takes: eight for a run,
/// five and its size for a literal.
pub open spec fn record_len(s: Seq<u8>, at: int) -> int {
    if size_field(s, at) == 0 {
        8
    } else {
        5 + size_field(s, at)
    }
}

/// Whether the record that starts at `at` lies inside `s`.
pub open spec fn record_fits(s: Seq<u8>, at: int) -> bool {
    0 <= at && at + 5 <= s.len() && at + record_len(s, at) <= s.len()
}

/// The edit that the record starting at `at` describes. A size field of zero
/// selects a run; any other size is the length of a literal.
pub open spec fn decode_record(s: Seq<u8>, at: int) -> Edit {
    Edit {
        offset: be24(s, at) as nat,
        payload: if size_field(s, at) == 0 {
            Payload::Fill { count: be16(s, at + 5) as nat, value: s[at + 7] }
        } else {
            Payload::Literal(s.subrange(at + 5, at + 5 + size_field(s, at)))
        },
    }
}

/// The edits of the records that start at `at`, each one beginning where the
/// one before ended, up to the first that would begin at or behind `end` or
/// that does not lie inside `s`.
pub open spec fn decode_stream(s: Seq<u8>, at: int, end: int) -> Seq<Edit>
    decreases s.len() - at,
{
    if at >= end || !record_fits(s, at) {
        Seq::empty()
    } else {
        seq![decode_record(s, at)] + decode_stream(s, at + record_len(s, at), end)
    }
}

/// Whether every record of the stream from `at` to `end` lies inside `s`.
/// The last one may end behind `end`.
pub open spec fn stream_fits(s: Seq<u8>, at: int, end: int) -> bool
    decreases s.len() - at,
{
    if at >= end {
        true
    } else if !record_fits(s, at) {
        false
    } else {
        stream_fits(s, at + record_len(s, at), end)
    }
}

/// Whether `s` is long enough for both markers and, where it carries them,
/// every record between them lies inside `s`.
pub open spec fn decodable(s: Seq<u8>) -> bool {
    s.len() >= 8 && (has_header(s) && has_trailer(s) ==> stream_fits(s, 5, s.len() - 3))
}

/// `buf` after the edits from index `from` on have been replayed in order.
pub open spec fn replay(edits: Seq<Edit>, from: int, buf: Seq<u8>) -> Seq<u8>
    decreases edits.len() - from,
{
    if from < 0 || from >= edits.len() {
        buf
    } else {
        replay(edits, from + 1, edits[from].apply(buf))
    }
}

/// Whether the edits from index `from` on can be replayed on `buf`: each one
/// applies to the buffer as the edits before it have left it.
pub open spec fn replayable(edits: Seq<Edit>, from: int, buf: Seq<u8>) -> bool
    decreases edits.len() - from,
{
    from < 0 || from >= edits.len() || (edits[from].applies_to(buf) && replayable(
        edits,
        from + 1,
        edits[from].apply(buf),
    ))
}

} // verus!
