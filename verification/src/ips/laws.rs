//! What holds of every record and every patch, proved over the model.

use crate::ips::patch::IPS;
use crate::ips::wire::{
    be16, be24, decode_record, decode_stream, header, record_fits, record_len, replay, replayable,
    size_field, trailer, Edit, Payload,
};
use vstd::prelude::*;

verus! {

/// A literal record, replayed on a buffer that reaches its offset, puts its
/// bytes at the positions from the offset on and leaves every other byte as
/// it was. The buffer then ends where the longer of the two ends: the old
/// buffer, or the written range.
pub proof fn lemma_literal_written(edit: Edit, buf: Seq<u8>)
    requires
        edit.payload is Literal,
        edit.applies_to(buf),
    ensures
        ({
            let data = edit.payload->Literal_0;
            let after = edit.apply(buf);
            &&& after.len() == if buf.len() >= edit.offset + data.len() {
                buf.len()
            } else {
                edit.offset + data.len()
            }
            &&& after.subrange(edit.offset as int, (edit.offset + data.len()) as int) == data
            &&& forall|i: int|
                0 <= i < buf.len() && !(edit.offset <= i < edit.offset + data.len())
                    ==> after[i] == buf[i]
        }),
{
    let data = edit.payload->Literal_0;
    let after = edit.apply(buf);
    assert(after.subrange(edit.offset as int, (edit.offset + data.len()) as int) =~= data);
}

/// A run of no bytes changes nothing.
pub proof fn lemma_empty_fill_is_noop(edit: Edit, buf: Seq<u8>)
    requires
        edit.payload is Fill,
        edit.payload->count == 0,
        edit.applies_to(buf),
    ensures
        edit.apply(buf) == buf,
{
    assert(edit.apply(buf) =~= buf);
}

/// A run of `count` bytes, replayed on a buffer that reaches its offset, puts
/// its value at each of the `count` positions from the offset on and leaves
/// every other byte as it was. The buffer grows only as far as the run
/// reaches behind its old end.
pub proof fn lemma_fill_written(edit: Edit, buf: Seq<u8>)
    requires
        edit.payload is Fill,
        edit.payload->count > 0,
        edit.applies_to(buf),
    ensures
        ({
            let count = edit.payload->count;
            let after = edit.apply(buf);
            &&& after.len() == if buf.len() >= edit.offset + count {
                buf.len()
            } else {
                edit.offset + count
            }
            &&& forall|i: int|
                edit.offset <= i < edit.offset + count ==> after[i] == edit.payload->value
            &&& forall|i: int|
                0 <= i < buf.len() && !(edit.offset <= i < edit.offset + count) ==> after[i]
                    == buf[i]
        }),
{
}

/// Replaying never shortens the buffer.
pub proof fn lemma_apply_never_shrinks(edit: Edit, buf: Seq<u8>)
    requires
        edit.applies_to(buf),
    ensures
        edit.apply(buf).len() >= buf.len(),
{
}

/// A record takes at least six bytes, whatever its fields hold.
pub proof fn lemma_record_len_min(s: Seq<u8>, at: int)
    ensures
        record_len(s, at) >= 6,
{
}

/// Decoding reads back what encoding wrote: wherever the encoding of a well
/// formed edit stands in a byte sequence, the record decoded at that place
/// is the edit, and it takes exactly the bytes of the encoding.
pub proof fn lemma_decode_inverts_encode(edit: Edit, s: Seq<u8>, at: int)
    requires
        edit.well_formed(),
        0 <= at,
        at + edit.encoding().len() <= s.len(),
        s.subrange(at, at + edit.encoding().len()) == edit.encoding(),
    ensures
        record_fits(s, at),
        record_len(s, at) == edit.encoding().len(),
        decode_record(s, at) == edit,
{
    let enc = edit.encoding();
    let part = s.subrange(at, at + enc.len());
    assert(enc.len() >= 6);
    assert forall|i: int| 0 <= i < enc.len() implies s[at + i] == enc[i] by {
        assert(part[i] == s[at + i]);
    }
    let offset = edit.offset as int;
    assert(s[at] == enc[0] && s[at + 1] == enc[1] && s[at + 2] == enc[2]);
    assert(s[at + 3] == enc[3] && s[at + 4] == enc[4] && s[at + 5] == enc[5]);
    assert(be24(s, at) == offset);
    match edit.payload {
        Payload::Literal(data) => {
            assert(size_field(s, at) == data.len());
            assert(s.subrange(at + 5, at + 5 + data.len()) =~= data) by {
                assert forall|i: int| 0 <= i < data.len() implies s[at + 5 + i] == data[i] by {
                    assert(enc[5 + i] == data[i]);
                }
            }
        },
        Payload::Fill { count, value } => {
            assert(s[at + 6] == enc[6] && s[at + 7] == enc[7]);
            assert(size_field(s, at) == 0);
            assert(be16(s, at + 5) == count);
        },
    }
}

/// Encoding writes back what decoding read: the edit decoded from a record
/// that lies inside a byte sequence is well formed, and its encoding is the
/// record's own bytes.
pub proof fn lemma_encode_inverts_decode(s: Seq<u8>, at: int)
    requires
        record_fits(s, at),
    ensures
        decode_record(s, at).well_formed(),
        decode_record(s, at).encoding() == s.subrange(at, at + record_len(s, at)),
{
    let edit = decode_record(s, at);
    assert(edit.encoding() =~= s.subrange(at, at + record_len(s, at)));
}

/// A patch holds no state that a replay could change: replayed on two
/// buffers with the same bytes, it yields the same bytes both times.
pub proof fn lemma_replay_repeatable(patch: &IPS, first: Seq<u8>, second: Seq<u8>)
    requires
        first == second,
        replayable(patch@, 0, first),
    ensures
        replayable(patch@, 0, second),
        replay(patch@, 0, first) == replay(patch@, 0, second),
{
}

/// A patch without records leaves every buffer as it is.
pub proof fn lemma_no_records_no_change(buf: Seq<u8>)
    ensures
        decode_stream(header() + trailer(), 5, 5) == Seq::<Edit>::empty(),
        replayable(Seq::<Edit>::empty(), 0, buf),
        replay(Seq::<Edit>::empty(), 0, buf) == buf,
{
}

} // verus!
