//! Protocol frames and their mathematical model.

use bytes::Bytes;
use vstd::prelude::*;

verus! {

/// The byte-buffer type of the `bytes` crate, carried in bulk frames.
#[verifier::external_type_specification]
#[verifier::external_body]
pub struct ExBytes(bytes::Bytes);

/// The bytes that a `Bytes` value holds, in order.
pub uninterp spec fn bytes_contents(b: Bytes) -> Seq<u8>;

/// Calls `Bytes::copy_from_slice`, which copies `data` into a fresh buffer:
/// the buffer holds exactly the bytes of `data`.
#[verifier::external_body]
pub(crate) fn bytes_from_slice(data: &[u8]) -> (b: Bytes)
    ensures
        bytes_contents(b) == data@,
{
    Bytes::copy_from_slice(data)
}

/// Calls `<Bytes as AsRef<[u8]>>::as_ref`, which borrows the buffer as a
/// slice: the slice holds exactly the buffer's bytes.
#[verifier::external_body]
pub(crate) fn bytes_as_slice(b: &Bytes) -> (s: &[u8])
    ensures
        s@ == bytes_contents(*b),
{
    b.as_ref()
}

/// `<Bytes as Clone>::clone` hands out another handle to the same storage:
/// the clone holds the same bytes.
pub assume_specification[ <bytes::Bytes as Clone>::clone ](b: &bytes::Bytes) -> (res: bytes::Bytes)
    ensures
        bytes_contents(res) == bytes_contents(*b),
;

/// One protocol message.
#[derive(Debug)]
pub enum Frame {
    /// A short status string without line breaks.
    Simple(String),
    /// An error message; framed like `Simple` but a distinct kind.
    Error(String),
    /// An unsigned decimal integer.
    Integer(u64),
    /// A length-prefixed blob of arbitrary bytes.
    Bulk(Bytes),
    /// The absence of a bulk value.
    Null,
    /// An ordered sequence of frames.
    Array(Vec<Frame>),
}

/// The mathematical value of a frame.
pub ghost enum FrameModel {
    Simple(Seq<char>),
    Error(Seq<char>),
    Integer(u64),
    Bulk(Seq<u8>),
    Null,
    Array(Seq<FrameModel>),
}

/// The kind of a frame, without its payload.
#[derive(Clone, Copy, Debug, PartialEq, Eq, Structural)]
pub enum FrameKind {
    Simple,
    Error,
    Integer,
    Bulk,
    Null,
    Array,
}

impl FrameKind {
    /// The text of `name`.
    pub open spec fn name_text(self) -> Seq<char> {
        match self {
            FrameKind::Simple => "Simple"@,
            FrameKind::Error => "Error"@,
            FrameKind::Integer => "Integer"@,
            FrameKind::Bulk => "Bulk"@,
            FrameKind::Null => "Null"@,
            FrameKind::Array => "Array"@,
        }
    }

    /// The name of the kind, as the variant of `Frame` is written.
    pub fn name(&self) -> (s: &'static str)
        ensures
            s@ == self.name_text(),
    {
        match self {
            FrameKind::Simple => "Simple",
            FrameKind::Error => "Error",
            FrameKind::Integer => "Integer",
            FrameKind::Bulk => "Bulk",
            FrameKind::Null => "Null",
            FrameKind::Array => "Array",
        }
    }
}

impl FrameModel {
    /// The kind of the frame.
    pub open spec fn kind(self) -> FrameKind {
        match self {
            FrameModel::Simple(_) => FrameKind::Simple,
            FrameModel::Error(_) => FrameKind::Error,
            FrameModel::Integer(_) => FrameKind::Integer,
            FrameModel::Bulk(_) => FrameKind::Bulk,
            FrameModel::Null => FrameKind::Null,
            FrameModel::Array(_) => FrameKind::Array,
        }
    }
}

impl Frame {
    /// The kind of the frame.
    pub fn kind(&self) -> (k: FrameKind)
        ensures
            k == self@.kind(),
    {
        match self {
            Frame::Simple(_) => FrameKind::Simple,
            Frame::Error(_) => FrameKind::Error,
            Frame::Integer(_) => FrameKind::Integer,
            Frame::Bulk(_) => FrameKind::Bulk,
            Frame::Null => FrameKind::Null,
            Frame::Array(_) => FrameKind::Array,
        }
    }
}

/// The value of a frame: its payload as plain values, an array's elements
/// by their own values.
pub open spec fn frame_model(frame: Frame) -> FrameModel
    decreases frame,
{
    match frame {
        Frame::Simple(text) => FrameModel::Simple(text@),
        Frame::Error(text) => FrameModel::Error(text@),
        Frame::Integer(n) => FrameModel::Integer(n),
        Frame::Bulk(data) => FrameModel::Bulk(bytes_contents(data)),
        Frame::Null => FrameModel::Null,
        Frame::Array(items) => FrameModel::Array(frame_models(items@)),
    }
}

/// The values of a sequence of frames, in order.
pub open spec fn frame_models(items: Seq<Frame>) -> Seq<FrameModel>
    decreases items,
{
    if items.len() == 0 {
        Seq::<FrameModel>::empty()
    } else {
        frame_models(items.drop_last()).push(frame_model(items.last()))
    }
}

impl View for Frame {
    type V = FrameModel;

    open spec fn view(&self) -> FrameModel {
        frame_model(*self)
    }
}

impl Clone for Frame {
    /// A copy of the frame, with the same value.
    fn clone(&self) -> (copy: Frame)
        ensures
            copy@ == self@,
        decreases self,
    {
        match self {
            Frame::Simple(text) => Frame::Simple(text.clone()),
            Frame::Error(text) => Frame::Error(text.clone()),
            Frame::Integer(n) => Frame::Integer(*n),
            Frame::Bulk(data) => Frame::Bulk(data.clone()),
            Frame::Null => Frame::Null,
            Frame::Array(items) => {
                let mut copies: Vec<Frame> = Vec::new();
                let mut i: usize = 0;
                while i < items.len()
                    invariant
                        i <= items.len(),
                        *self == Frame::Array(*items),
                        copies@.len() == i,
                        forall|j: int| 0 <= j < i ==> (#[trigger] copies@[j])@ == items@[j]@,
                    decreases items.len() - i,
                {
                    proof {
                        assert(decreases_to!(*self => self->Array_0));
                        assert(decreases_to!(*items => items[i as int]));
                    }
                    let item = items[i].clone();
                    copies.push(item);
                    i += 1;
                }
                proof {
                    lemma_frame_models(items@);
                    lemma_frame_models(copies@);
                    assert forall|j: int| 0 <= j < items@.len() implies frame_models(copies@)[j]
                        == frame_models(items@)[j] by {
                        assert(copies@[j]@ == items@[j]@);
                    }
                    assert(frame_models(copies@) =~= frame_models(items@));
                }
                Frame::Array(copies)
            },
        }
    }
}

/// `frame_models` maps each frame to its value and keeps the order.
pub proof fn lemma_frame_models(items: Seq<Frame>)
    ensures
        frame_models(items).len() == items.len(),
        forall|i: int| 0 <= i < items.len() ==> frame_models(items)[i] == (#[trigger] items[i])@,
    decreases items.len(),
{
    if items.len() > 0 {
        let front = items.drop_last();
        lemma_frame_models(front);
        assert forall|i: int| 0 <= i < items.len() implies frame_models(items)[i] == (
        #[trigger] items[i])@ by {
            if i < front.len() {
                assert(front[i] == items[i]);
            }
        }
    }
}

} // verus!
