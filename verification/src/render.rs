//! Frames as text, for people to read.

use crate::decimal::{decimal, is_digit, lemma_decimal_value, write_decimal};
use crate::frame::{bytes_as_slice, lemma_frame_models, Frame, FrameModel};
use crate::text::{ascii_text, lemma_ascii_text, text_from_bytes};
use vstd::prelude::*;
use vstd::string::StringExecFns;
use vstd::utf8::{decode_utf8, valid_utf8};

verus! {

/// The text of a number: its shortest decimal numeral.
pub open spec fn decimal_text(n: nat) -> Seq<char> {
    ascii_text(decimal(n))
}

/// The text of the elements of an array, joined by a comma and a space.
pub open spec fn render_joined(items: Seq<FrameModel>) -> Seq<char>
    decreases items,
{
    if items.len() == 0 {
        Seq::<char>::empty()
    } else if items.len() == 1 {
        render(items[0])
    } else {
        render_joined(items.drop_last()) + ", "@ + render(items.last())
    }
}

/// The text of a frame. A simple string and an error are their own text;
/// an integer is its decimal numeral; a bulk string is its bytes as text
/// where they are UTF-8, and `(binary)` otherwise; the null value is
/// `(nil)`; an array is its elements' texts, joined by a comma and a space,
/// in square brackets.
pub open spec fn render(m: FrameModel) -> Seq<char>
    decreases m,
{
    match m {
        FrameModel::Simple(text) => text,
        FrameModel::Error(text) => text,
        FrameModel::Integer(n) => decimal_text(n as nat),
        FrameModel::Bulk(data) => if valid_utf8(data) {
            decode_utf8(data)
        } else {
            "(binary)"@
        },
        FrameModel::Null => "(nil)"@,
        FrameModel::Array(items) => "["@ + render_joined(items) + "]"@,
    }
}

/// The decimal numeral of `n` as a string.
pub fn decimal_string(n: u64) -> (s: String)
    ensures
        s@ == decimal_text(n as nat),
{
    let mut digits: Vec<u8> = Vec::new();
    write_decimal(&mut digits, n);
    proof {
        lemma_decimal_value(n as nat);
        assert(digits@ =~= decimal(n as nat));
        assert forall|i: int| 0 <= i < digits@.len() implies #[trigger] digits@[i] < 128 by {
            assert(is_digit(digits@[i]));
        }
        lemma_ascii_text(digits@);
    }
    text_from_bytes(digits.as_slice()).unwrap()
}

/// Appends the text of `frame` to `out`.
pub fn render_into(frame: &Frame, out: &mut String)
    ensures
        final(out)@ == old(out)@ + render(frame@),
    decreases frame,
{
    let ghost start = out@;
    match frame {
        Frame::Simple(text) => {
            out.append(text.as_str());
        },
        Frame::Error(text) => {
            out.append(text.as_str());
        },
        Frame::Integer(n) => {
            let text = decimal_string(*n);
            out.append(text.as_str());
        },
        Frame::Bulk(data) => {
            match text_from_bytes(bytes_as_slice(data)) {
                Some(text) => {
                    out.append(text.as_str());
                },
                None => {
                    out.append("(binary)");
                },
            }
        },
        Frame::Null => {
            out.append("(nil)");
        },
        Frame::Array(items) => {
            out.append("[");
            let ghost models = frame@->Array_0;
            let ghost head = out@;
            proof {
                lemma_frame_models(items@);
                assert(models.take(0) =~= Seq::<FrameModel>::empty());
                assert(head + render_joined(models.take(0)) =~= head);
            }
            let mut i: usize = 0;
            while i < items.len()
                invariant
                    i <= items.len(),
                    *frame == Frame::Array(*items),
                    models.len() == items.len(),
                    forall|j: int| 0 <= j < items.len() ==> models[j] == (#[trigger] items@[j])@,
                    out@ == head + render_joined(models.take(i as int)),
                decreases items.len() - i,
            {
                if i > 0 {
                    out.append(", ");
                }
                proof {
                    assert(decreases_to!(*frame => frame->Array_0));
                    assert(decreases_to!(*items => items[i as int]));
                }
                render_into(&items[i], out);
                proof {
                    let next = models.take(i + 1);
                    assert(next.drop_last() =~= models.take(i as int));
                    assert(next.last() == items@[i as int]@);
                    if i == 0 {
                        assert(next[0] == next.last());
                        assert(render_joined(models.take(0)) =~= Seq::<char>::empty());
                    }
                    assert(out@ =~= head + render_joined(next));
                }
                i += 1;
            }
            assert(models.take(i as int) =~= models);
            out.append("]");
            assert(out@ =~= start + render(frame@));
        },
    }
}

impl Frame {
    /// The text of this frame.
    pub fn to_string(&self) -> (s: String)
        ensures
            s@ == render(self@),
    {
        let mut out = String::new();
        render_into(self, &mut out);
        assert(out@ =~= render(self@));
        out
    }
}

} // verus!
