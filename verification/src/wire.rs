//! The wire format: how a frame is written as bytes.

use crate::decimal::{decimal, write_decimal};
use crate::frame::{bytes_as_slice, lemma_frame_models, Frame, FrameModel};
use vstd::prelude::*;
use vstd::utf8::encode_utf8;

verus! {

/// Carriage return, the first byte of a line terminator.
pub const CR: u8 = 13;

/// Line feed, the second byte of a line terminator.
pub const LF: u8 = 10;

/// The sigil of a simple string, `+`.
pub const SIGIL_SIMPLE: u8 = 43;

/// The sigil of an error, `-`.
pub const SIGIL_ERROR: u8 = 45;

/// The sigil of an integer, `:`.
pub const SIGIL_INTEGER: u8 = 58;

/// The sigil of a bulk string and of the null value, `$`.
pub const SIGIL_BULK: u8 = 36;

/// The sigil of an array, `*`.
pub const SIGIL_ARRAY: u8 = 42;

/// The line terminator.
pub open spec fn crlf() -> Seq<u8> {
    seq![CR, LF]
}

/// The line that stands for the null value, `-1`.
pub open spec fn null_line() -> Seq<u8> {
    seq![45u8, 49u8]
}

/// The bytes that stand for a frame on the wire.
pub open spec fn encode(m: FrameModel) -> Seq<u8>
    decreases m,
{
    match m {
        FrameModel::Simple(text) => seq![SIGIL_SIMPLE] + encode_utf8(text) + crlf(),
        FrameModel::Error(text) => seq![SIGIL_ERROR] + encode_utf8(text) + crlf(),
        FrameModel::Integer(n) => seq![SIGIL_INTEGER] + decimal(n as nat) + crlf(),
        FrameModel::Bulk(data) => seq![SIGIL_BULK] + decimal(data.len()) + crlf() + data + crlf(),
        FrameModel::Null => seq![SIGIL_BULK] + null_line() + crlf(),
        FrameModel::Array(items) => seq![SIGIL_ARRAY] + decimal(items.len()) + crlf() + encode_all(
            items,
        ),
    }
}

/// The encodings of `items`, one after another.
pub open spec fn encode_all(items: Seq<FrameModel>) -> Seq<u8>
    decreases items,
{
    if items.len() == 0 {
        Seq::<u8>::empty()
    } else {
        encode_all(items.drop_last()) + encode(items.last())
    }
}

/// Appends the bytes of `src` to `buf`.
pub fn append_bytes(buf: &mut Vec<u8>, src: &[u8])
    ensures
        final(buf)@ == old(buf)@ + src@,
{
    buf.extend_from_slice(src);
    assert(buf@ =~= old(buf)@ + src@);
}

/// Appends a line terminator to `buf`.
pub fn write_crlf(buf: &mut Vec<u8>)
    ensures
        final(buf)@ == old(buf)@ + crlf(),
{
    buf.push(CR);
    buf.push(LF);
    assert(buf@ =~= old(buf)@ + crlf());
}

/// Appends the wire form of `frame` to `buf`: the sigil, then the payload,
/// an array's elements in order after its count.
pub fn write_value(frame: &Frame, buf: &mut Vec<u8>)
    ensures
        final(buf)@ == old(buf)@ + encode(frame@),
    decreases frame,
{
    let ghost start = buf@;
    match frame {
        Frame::Simple(text) => {
            buf.push(SIGIL_SIMPLE);
            append_bytes(buf, text.as_str().as_bytes());
            write_crlf(buf);
            assert(buf@ =~= start + encode(frame@));
        },
        Frame::Error(text) => {
            buf.push(SIGIL_ERROR);
            append_bytes(buf, text.as_str().as_bytes());
            write_crlf(buf);
            assert(buf@ =~= start + encode(frame@));
        },
        Frame::Integer(n) => {
            buf.push(SIGIL_INTEGER);
            write_decimal(buf, *n);
            write_crlf(buf);
            assert(buf@ =~= start + encode(frame@));
        },
        Frame::Bulk(data) => {
            let bytes = bytes_as_slice(data);
            buf.push(SIGIL_BULK);
            write_decimal(buf, bytes.len() as u64);
            write_crlf(buf);
            append_bytes(buf, bytes);
            write_crlf(buf);
            assert(buf@ =~= start + encode(frame@));
        },
        Frame::Null => {
            buf.push(SIGIL_BULK);
            buf.push(45u8);
            buf.push(49u8);
            write_crlf(buf);
            assert(buf@ =~= start + encode(frame@));
        },
        Frame::Array(items) => {
            buf.push(SIGIL_ARRAY);
            write_decimal(buf, items.len() as u64);
            write_crlf(buf);
            let ghost models = frame@->Array_0;
            let ghost head = buf@;
            proof {
                lemma_frame_models(items@);
            }
            assert(head =~= start + (seq![SIGIL_ARRAY] + decimal(models.len()) + crlf()));
            let mut i: usize = 0;
            assert(models.take(0) =~= Seq::<FrameModel>::empty());
            while i < items.len()
                invariant
                    i <= items.len(),
                    *frame == Frame::Array(*items),
                    models.len() == items.len(),
                    forall|j: int| 0 <= j < items.len() ==> models[j] == (#[trigger] items@[j])@,
                    buf@ == head + encode_all(models.take(i as int)),
                decreases items.len() - i,
            {
                proof {
                    assert(decreases_to!(*frame => frame->Array_0));
                    assert(decreases_to!(*items => items[i as int]));
                }
                write_value(&items[i], buf);
                proof {
                    let next = models.take(i + 1);
                    assert(next.drop_last() =~= models.take(i as int));
                    assert(next.last() == items@[i as int]@);
                    assert(buf@ =~= head + encode_all(next));
                }
                i += 1;
            }
            assert(models.take(i as int) =~= models);
            assert(buf@ =~= start + encode(frame@));
        },
    }
}

impl Frame {
    /// The bytes that stand for this frame on the wire.
    pub fn encode(&self) -> (out: Vec<u8>)
        ensures
            out@ == encode(self@),
    {
        let mut out: Vec<u8> = Vec::new();
        write_value(self, &mut out);
        assert(out@ =~= encode(self@));
        out
    }
}

} // verus!
