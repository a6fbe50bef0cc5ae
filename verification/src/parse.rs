//! A cursor over the elements of an array frame.
//!
//! Commands are array frames, each element a token. A `Parse` is made from
//! one array frame and hands out its elements in order, each converted to
//! the type that the caller asks for.

use crate::decimal::{all_digits, is_numeral, parse_decimal};
use crate::frame::{
    bytes_as_slice, bytes_contents, bytes_from_slice, frame_models, lemma_frame_models, Frame,
    FrameKind, FrameModel,
};
use crate::text::text_from_bytes;
use bytes::Bytes;
use vstd::prelude::*;
use vstd::string::{StringExecFns, StringSliceAdditionalSpecFns};
use vstd::utf8::{decode_utf8, encode_utf8, valid_utf8};

verus! {

/// What is wrong with a frame that the cursor was asked to convert.
#[derive(Clone, Copy, Debug, PartialEq, Eq, Structural)]
pub enum ParseFault {
    /// The frame handed to `Parse::new` is no array, but of this kind.
    ExpectedArray(FrameKind),
    /// A bulk frame asked for as a string is not UTF-8.
    InvalidString,
    /// A string or bytes were asked for, and the element is neither a
    /// simple nor a bulk frame, but of this kind.
    ExpectedSimpleOrBulk(FrameKind),
    /// An integer was asked for, and the element is neither an integer, a
    /// simple nor a bulk frame, but of this kind.
    ExpectedInt(FrameKind),
    /// The element's content is no unsigned decimal that fits in 64 bits.
    InvalidNumber,
    /// Elements are left where the end of the array was expected.
    TrailingData,
}

/// Why an extraction failed.
#[derive(Clone, Copy, Debug, PartialEq, Eq, Structural)]
pub enum ParseError {
    /// No element is left.
    EndOfStream,
    /// Every other failure.
    Other(ParseFault),
}

impl ParseError {
    /// The text of `message`. Where a frame of the wrong kind came, the
    /// text ends with the name of that kind.
    pub open spec fn message_text(self) -> Seq<char> {
        match self {
            ParseError::EndOfStream => "protocol error; unexpected end of stream"@,
            ParseError::Other(ParseFault::ExpectedArray(got)) => "protocol error; expected array, got "@
                + got.name_text(),
            ParseError::Other(ParseFault::InvalidString) => "protocol error; invalid string"@,
            ParseError::Other(ParseFault::ExpectedSimpleOrBulk(got)) => "protocol error; expected simple frame or bulk frame, got "@
                + got.name_text(),
            ParseError::Other(ParseFault::ExpectedInt(got)) => "protocol error; expected int frame but got "@
                + got.name_text(),
            ParseError::Other(ParseFault::InvalidNumber) => "protocol error; invalid number"@,
            ParseError::Other(ParseFault::TrailingData) => "protocol error; expected end of frame, but there was more"@,
        }
    }

    /// A line of text that says what went wrong.
    pub fn message(&self) -> (s: String)
        ensures
            s@ == self.message_text(),
    {
        match self {
            ParseError::EndOfStream => String::from_str("protocol error; unexpected end of stream"),
            ParseError::Other(ParseFault::ExpectedArray(got)) => String::from_str(
                "protocol error; expected array, got ",
            ).concat(got.name()),
            ParseError::Other(ParseFault::InvalidString) => String::from_str(
                "protocol error; invalid string",
            ),
            ParseError::Other(ParseFault::ExpectedSimpleOrBulk(got)) => String::from_str(
                "protocol error; expected simple frame or bulk frame, got ",
            ).concat(got.name()),
            ParseError::Other(ParseFault::ExpectedInt(got)) => String::from_str(
                "protocol error; expected int frame but got ",
            ).concat(got.name()),
            ParseError::Other(ParseFault::InvalidNumber) => String::from_str(
                "protocol error; invalid number",
            ),
            ParseError::Other(ParseFault::TrailingData) => String::from_str(
                "protocol error; expected end of frame, but there was more",
            ),
        }
    }
}

/// Calls `atoi::atoi::<u64>` on a text of one or more digits. With no sign
/// in front and no byte after the digits, it returns the number that the
/// digits denote, leading zeros allowed, or `None` where that number does
/// not fit in 64 bits.
#[verifier::external_body]
pub(crate) fn atoi_bytes(text: &[u8]) -> (r: Option<u64>)
    requires
        text@.len() > 0,
        all_digits(text@),
    ensures
        r == parse_decimal(text@),
{
    atoi::atoi::<u64>(text)
}

/// Reads the content of a frame as an unsigned decimal: one or more digits
/// and nothing else, denoting a number that fits in 64 bits. A sign, a
/// byte after the digits or no digit at all gives `None`.
pub fn read_number(content: &[u8]) -> (r: Option<u64>)
    ensures
        r == parse_decimal(content@),
{
    if is_numeral(content) {
        atoi_bytes(content)
    } else {
        None
    }
}

/// The string that an element stands for: a simple frame's text as it is, a
/// bulk frame's bytes where they are UTF-8. A frame of another kind is
/// refused, and the error names the kind.
pub open spec fn string_of(m: FrameModel) -> Result<Seq<char>, ParseError> {
    match m {
        FrameModel::Simple(text) => Ok(text),
        FrameModel::Bulk(data) => if valid_utf8(data) {
            Ok(decode_utf8(data))
        } else {
            Err(ParseError::Other(ParseFault::InvalidString))
        },
        _ => Err(ParseError::Other(ParseFault::ExpectedSimpleOrBulk(m.kind()))),
    }
}

/// The bytes that an element stands for: a simple frame's text in UTF-8, a
/// bulk frame's bytes as they are. A frame of another kind is refused, and
/// the error names the kind.
pub open spec fn bytes_of(m: FrameModel) -> Result<Seq<u8>, ParseError> {
    match m {
        FrameModel::Simple(text) => Ok(encode_utf8(text)),
        FrameModel::Bulk(data) => Ok(data),
        _ => Err(ParseError::Other(ParseFault::ExpectedSimpleOrBulk(m.kind()))),
    }
}

/// The number read from the content of a simple or bulk frame.
pub open spec fn int_from_text(parsed: Option<u64>) -> Result<u64, ParseError> {
    match parsed {
        Some(v) => Ok(v),
        None => Err(ParseError::Other(ParseFault::InvalidNumber)),
    }
}

/// The number that an element stands for: an integer frame's value, or
/// the unsigned decimal that is the whole content of a simple or bulk
/// frame. A frame of another kind is refused, and the error names the kind.
pub open spec fn int_of(m: FrameModel) -> Result<u64, ParseError> {
    match m {
        FrameModel::Integer(v) => Ok(v),
        FrameModel::Simple(text) => int_from_text(parse_decimal(encode_utf8(text))),
        FrameModel::Bulk(data) => int_from_text(parse_decimal(data)),
        _ => Err(ParseError::Other(ParseFault::ExpectedInt(m.kind()))),
    }
}

/// Turns what was read from an element's content into the extraction's
/// result: the number, or the invalid-number error where none was read.
pub fn int_from_parsed(parsed: Option<u64>) -> (r: Result<u64, ParseError>)
    ensures
        r == int_from_text(parsed),
{
    match parsed {
        Some(v) => Ok(v),
        None => Err(ParseError::Other(ParseFault::InvalidNumber)),
    }
}

/// A forward-only cursor over the elements of one array frame.
#[derive(Debug)]
pub struct Parse {
    /// The elements not yet handed out, the next one last.
    rest: Vec<Frame>,
}

impl View for Parse {
    type V = Seq<FrameModel>;

    /// The elements not yet handed out, the next one first.
    closed spec fn view(&self) -> Seq<FrameModel> {
        frame_models(self.rest@.reverse())
    }
}

impl Parse {
    /// A cursor at the first element of `frame`, which must be an array.
    /// The cursor holds the array's elements, each by its value, in the
    /// array's order.
    pub fn new(frame: Frame) -> (r: Result<Parse, ParseError>)
        ensures
            match frame@ {
                FrameModel::Array(items) => r matches Ok(p) && p@ == items,
                _ => r matches Err(e) && e == ParseError::Other(
                    ParseFault::ExpectedArray(frame@.kind()),
                ),
            },
            frame matches Frame::Array(array) ==> (r matches Ok(p) && p@.len() == array@.len()
                && forall|i: int| 0 <= i < array@.len() ==> p@[i] == (#[trigger] array@[i])@),
    {
        match frame {
            Frame::Array(array) => {
                let ghost all = array@;
                proof {
                    lemma_frame_models(all);
                }
                let mut items = array;
                let mut rest: Vec<Frame> = Vec::new();
                while items.len() > 0
                    invariant
                        all == items@ + rest@.reverse(),
                    decreases items.len(),
                {
                    let ghost before = rest@;
                    let ghost front = items@;
                    match items.pop() {
                        Some(item) => {
                            rest.push(item);
                            assert(rest@.reverse() =~= seq![item] + before.reverse());
                            assert(all =~= items@ + rest@.reverse());
                        },
                        None => {},
                    }
                }
                assert(all =~= rest@.reverse());
                Ok(Parse { rest })
            },
            other => Err(ParseError::Other(ParseFault::ExpectedArray(other.kind()))),
        }
    }

    /// The number of elements not yet handed out.
    pub fn remaining(&self) -> (n: usize)
        ensures
            n == self@.len(),
    {
        proof {
            lemma_frame_models(self.rest@.reverse());
        }
        self.rest.len()
    }

    /// Hands out the next element and moves past it.
    pub fn next(&mut self) -> (r: Result<Frame, ParseError>)
        ensures
            old(self)@.len() == 0 ==> (r matches Err(e) && e == ParseError::EndOfStream && final(self)@
                == old(self)@),
            old(self)@.len() > 0 ==> (r matches Ok(f) && f@ == old(self)@[0] && final(self)@ == old(
                self)@.drop_first()),
    {
        let ghost before = self.rest@;
        proof {
            lemma_frame_models(before.reverse());
        }
        match self.rest.pop() {
            Some(frame) => {
                proof {
                    let after = self.rest@;
                    lemma_frame_models(after.reverse());
                    assert(before.reverse()[0] == frame);
                    assert(self@.len() == old(self)@.len() - 1);
                    assert forall|i: int| 0 <= i < after.len() implies self@[i] == old(self)@[i
                        + 1] by {
                        assert(after.reverse()[i] == before.reverse()[i + 1]);
                        assert(self@[i] == after.reverse()[i]@);
                        assert(old(self)@[i + 1] == before.reverse()[i + 1]@);
                    }
                    assert(self@ =~= old(self)@.drop_first());
                }
                Ok(frame)
            },
            None => Err(ParseError::EndOfStream),
        }
    }

    /// Hands out the next element as a string. A simple frame gives its
    /// text; a bulk frame gives its bytes as text where they are UTF-8.
    pub fn next_string(&mut self) -> (r: Result<String, ParseError>)
        ensures
            old(self)@.len() == 0 ==> (r matches Err(e) && e == ParseError::EndOfStream && final(self)@
                == old(self)@),
            old(self)@.len() > 0 ==> final(self)@ == old(self)@.drop_first() && (match string_of(
                old(self)@[0],
            ) {
                Ok(text) => r matches Ok(s) && s@ == text,
                Err(e) => r matches Err(x) && x == e,
            }),
    {
        match self.next() {
            Err(e) => Err(e),
            Ok(Frame::Simple(text)) => Ok(text),
            Ok(Frame::Bulk(data)) => match text_from_bytes(bytes_as_slice(&data)) {
                Some(text) => Ok(text),
                None => Err(ParseError::Other(ParseFault::InvalidString)),
            },
            Ok(other) => Err(ParseError::Other(ParseFault::ExpectedSimpleOrBulk(other.kind()))),
        }
    }

    /// Hands out the next element as raw bytes. A simple frame gives the
    /// bytes of its text; a bulk frame gives its bytes.
    pub fn next_bytes(&mut self) -> (r: Result<Bytes, ParseError>)
        ensures
            old(self)@.len() == 0 ==> (r matches Err(e) && e == ParseError::EndOfStream && final(self)@
                == old(self)@),
            old(self)@.len() > 0 ==> final(self)@ == old(self)@.drop_first() && (match bytes_of(
                old(self)@[0],
            ) {
                Ok(data) => r matches Ok(b) && bytes_contents(b) == data,
                Err(e) => r matches Err(x) && x == e,
            }),
    {
        match self.next() {
            Err(e) => Err(e),
            Ok(Frame::Simple(text)) => Ok(bytes_from_slice(text.as_str().as_bytes())),
            Ok(Frame::Bulk(data)) => Ok(data),
            Ok(other) => Err(ParseError::Other(ParseFault::ExpectedSimpleOrBulk(other.kind()))),
        }
    }

    /// Hands out the next element as an unsigned integer. An integer frame
    /// gives its value; the content of a simple or bulk frame must be an
    /// unsigned decimal, whole: digits only, and a number that fits in 64
    /// bits.
    pub fn next_int(&mut self) -> (r: Result<u64, ParseError>)
        ensures
            old(self)@.len() == 0 ==> r == Err::<u64, ParseError>(ParseError::EndOfStream)
                && final(self)@ == old(self)@,
            old(self)@.len() > 0 ==> final(self)@ == old(self)@.drop_first() && r == int_of(
                old(self)@[0],
            ),
    {
        match self.next() {
            Err(e) => Err(e),
            Ok(Frame::Integer(v)) => Ok(v),
            Ok(Frame::Simple(text)) => int_from_parsed(read_number(text.as_str().as_bytes())),
            Ok(Frame::Bulk(data)) => int_from_parsed(read_number(bytes_as_slice(&data))),
            Ok(other) => Err(ParseError::Other(ParseFault::ExpectedInt(other.kind()))),
        }
    }

    /// Checks that no element is left. Where one is, it is taken and the
    /// check fails.
    pub fn finish(&mut self) -> (r: Result<(), ParseError>)
        ensures
            old(self)@.len() == 0 ==> r == Ok::<(), ParseError>(()) && final(self)@ == old(self)@,
            old(self)@.len() > 0 ==> r == Err::<(), ParseError>(
                ParseError::Other(ParseFault::TrailingData),
            ) && final(self)@ == old(self)@.drop_first(),
    {
        match self.next() {
            Err(_) => Ok(()),
            Ok(_) => Err(ParseError::Other(ParseFault::TrailingData)),
        }
    }
}

} // verus!
