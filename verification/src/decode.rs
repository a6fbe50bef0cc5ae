//! The decode grammar: what a window of buffered bytes holds.

use crate::decimal::{parse_decimal, read_decimal};
use crate::frame::{bytes_from_slice, frame_models, Frame, FrameModel};
use crate::text::text_from_bytes;
use crate::wire::{
    null_line, CR, LF, SIGIL_ARRAY, SIGIL_BULK, SIGIL_ERROR, SIGIL_INTEGER, SIGIL_SIMPLE,
};
use vstd::prelude::*;
use vstd::slice::slice_subrange;
use vstd::string::StringExecFns;
use vstd::utf8::{decode_utf8, valid_utf8};

verus! {

/// The ways in which buffered bytes can contradict the grammar.
#[derive(Clone, Copy, Debug, PartialEq, Eq, Structural)]
pub enum ProtocolError {
    /// The first byte of a frame is none of the five sigils.
    UnknownSigil,
    /// The text of a simple string or of an error is not UTF-8.
    InvalidText,
    /// An integer, a length or a count is not an unsigned decimal that
    /// fits in 64 bits.
    InvalidNumber,
    /// The payload of a bulk string is not followed by a line terminator.
    MissingTerminator,
}

impl ProtocolError {
    /// The text of `message`.
    pub open spec fn message_text(self) -> Seq<char> {
        match self {
            ProtocolError::UnknownSigil => "protocol error; invalid frame type byte"@,
            ProtocolError::InvalidText => "protocol error; invalid text"@,
            ProtocolError::InvalidNumber => "protocol error; invalid number"@,
            ProtocolError::MissingTerminator => "protocol error; missing line terminator"@,
        }
    }

    /// A line of text that says what is wrong.
    pub fn message(&self) -> (s: String)
        ensures
            s@ == self.message_text(),
    {
        match self {
            ProtocolError::UnknownSigil => String::from_str(
                "protocol error; invalid frame type byte",
            ),
            ProtocolError::InvalidText => String::from_str("protocol error; invalid text"),
            ProtocolError::InvalidNumber => String::from_str("protocol error; invalid number"),
            ProtocolError::MissingTerminator => String::from_str(
                "protocol error; missing line terminator",
            ),
        }
    }
}

/// Why no frame came out of the buffered bytes.
#[derive(Clone, Copy, Debug, PartialEq, Eq, Structural)]
pub enum FrameError {
    /// The bytes end before the frame does: more must be read.
    Incomplete,
    /// The bytes cannot begin a frame, however they go on.
    Other(ProtocolError),
}

/// What stands at a position of a byte sequence.
pub ghost enum Parsed {
    /// A whole frame, taking up `len` bytes.
    Complete { frame: FrameModel, len: nat },
    /// The beginning of a frame whose end is not there yet.
    Incomplete,
    /// Bytes that begin no frame.
    Invalid(ProtocolError),
}

/// What stands at a position where a given number of frames is expected.
pub ghost enum ParsedItems {
    /// All the frames, taking up `len` bytes together.
    Complete { items: Seq<FrameModel>, len: nat },
    /// Some frame's end is not there yet.
    Incomplete,
    /// Some frame is malformed, and all before it are whole.
    Invalid(ProtocolError),
}

/// Whether `b` is one of the five sigils.
pub open spec fn is_sigil(b: u8) -> bool {
    b == SIGIL_SIMPLE || b == SIGIL_ERROR || b == SIGIL_INTEGER || b == SIGIL_BULK || b
        == SIGIL_ARRAY
}

/// Whether a line terminator stands at position `i` of `s`.
pub open spec fn crlf_at(s: Seq<u8>, i: int) -> bool {
    0 <= i && i + 1 < s.len() && s[i] == CR && s[i + 1] == LF
}

/// The number of bytes between `from` and the first line terminator at or
/// after it, or `None` where no terminator follows.
pub open spec fn line_len(s: Seq<u8>, from: int) -> Option<nat>
    decreases s.len() - from,
{
    if from < 0 || from + 1 >= s.len() {
        None
    } else if s[from] == CR && s[from + 1] == LF {
        Some(0)
    } else {
        match line_len(s, from + 1) {
            Some(n) => Some(n + 1),
            None => None,
        }
    }
}

/// The array frame made of a header of `header` bytes and of the elements
/// parsed after it.
pub open spec fn array_outcome(header: nat, elements: ParsedItems) -> Parsed {
    match elements {
        ParsedItems::Complete { items, len } => Parsed::Complete {
            frame: FrameModel::Array(items),
            len: header + len,
        },
        ParsedItems::Incomplete => Parsed::Incomplete,
        ParsedItems::Invalid(e) => Parsed::Invalid(e),
    }
}

/// The number of bytes of `s` from `pos` on.
pub open spec fn remaining(s: Seq<u8>, pos: int) -> nat {
    if 0 <= pos <= s.len() {
        (s.len() - pos) as nat
    } else {
        0
    }
}

/// The frame that begins at `pos`. The sigil selects the kind; a line up to
/// the first terminator follows, which is the text, the number, the length
/// or the count; a bulk string's payload and a terminator, or an array's
/// elements, come after it.
pub open spec fn parse_at(s: Seq<u8>, pos: int) -> Parsed
    decreases remaining(s, pos), 0nat,
{
    if pos < 0 || pos >= s.len() {
        Parsed::Incomplete
    } else if !is_sigil(s[pos]) {
        Parsed::Invalid(ProtocolError::UnknownSigil)
    } else {
        match line_len(s, pos + 1) {
            None => Parsed::Incomplete,
            Some(n) => {
                let line = s.subrange(pos + 1, pos + 1 + n);
                let body = pos + 1 + n + 2;
                if s[pos] == SIGIL_SIMPLE {
                    if valid_utf8(line) {
                        Parsed::Complete { frame: FrameModel::Simple(decode_utf8(line)), len: n + 3 }
                    } else {
                        Parsed::Invalid(ProtocolError::InvalidText)
                    }
                } else if s[pos] == SIGIL_ERROR {
                    if valid_utf8(line) {
                        Parsed::Complete { frame: FrameModel::Error(decode_utf8(line)), len: n + 3 }
                    } else {
                        Parsed::Invalid(ProtocolError::InvalidText)
                    }
                } else if s[pos] == SIGIL_INTEGER {
                    match parse_decimal(line) {
                        Some(v) => Parsed::Complete { frame: FrameModel::Integer(v), len: n + 3 },
                        None => Parsed::Invalid(ProtocolError::InvalidNumber),
                    }
                } else if s[pos] == SIGIL_BULK {
                    if line == null_line() {
                        Parsed::Complete { frame: FrameModel::Null, len: n + 3 }
                    } else {
                        match parse_decimal(line) {
                            None => Parsed::Invalid(ProtocolError::InvalidNumber),
                            Some(size) => {
                                if body + size + 2 > s.len() {
                                    Parsed::Incomplete
                                } else if !crlf_at(s, body + size) {
                                    Parsed::Invalid(ProtocolError::MissingTerminator)
                                } else {
                                    Parsed::Complete {
                                        frame: FrameModel::Bulk(s.subrange(body, body + size)),
                                        len: n + 3 + size as nat + 2,
                                    }
                                }
                            },
                        }
                    }
                } else {
                    match parse_decimal(line) {
                        None => Parsed::Invalid(ProtocolError::InvalidNumber),
                        Some(count) => array_outcome(n + 3, parse_items(s, body, count as nat)),
                    }
                }
            },
        }
    }
}

/// The `count` frames that stand one after another from `pos` on.
pub open spec fn parse_items(s: Seq<u8>, pos: int, count: nat) -> ParsedItems
    decreases remaining(s, pos), count + 1,
{
    if count == 0 {
        ParsedItems::Complete { items: Seq::<FrameModel>::empty(), len: 0 }
    } else if pos < 0 || pos >= s.len() {
        ParsedItems::Incomplete
    } else {
        match parse_at(s, pos) {
            Parsed::Incomplete => ParsedItems::Incomplete,
            Parsed::Invalid(e) => ParsedItems::Invalid(e),
            Parsed::Complete { frame, len } => match parse_items(
                s,
                pos + len,
                (count - 1) as nat,
            ) {
                ParsedItems::Incomplete => ParsedItems::Incomplete,
                ParsedItems::Invalid(e) => ParsedItems::Invalid(e),
                ParsedItems::Complete { items, len: rest } => ParsedItems::Complete {
                    items: seq![frame] + items,
                    len: len + rest,
                },
            },
        }
    }
}

/// Where `line_len` finds a terminator, it stands there, within `s`, and
/// none stands between `from` and it.
pub proof fn lemma_line_len(s: Seq<u8>, from: int)
    ensures
        line_len(s, from) matches Some(n) ==> {
            &&& 0 <= from
            &&& crlf_at(s, from + n)
            &&& forall|j: int| from <= j < from + n ==> !crlf_at(s, j)
        },
    decreases s.len() - from,
{
    if from < 0 || from + 1 >= s.len() {
    } else if s[from] == CR && s[from + 1] == LF {
    } else {
        lemma_line_len(s, from + 1);
    }
}

/// A frame that is parsed lies within the bytes: it begins at `pos` and
/// ends no later than they do. A bulk string holds as many bytes as its
/// length declared, and they are the bytes before its closing terminator;
/// an array holds as many elements as its count declared.
pub proof fn lemma_parse_within(s: Seq<u8>, pos: int)
    ensures
        parse_at(s, pos) matches Parsed::Complete { frame, len } ==> {
            &&& 0 <= pos
            &&& len >= 3
            &&& pos + len <= s.len()
            &&& line_len(s, pos + 1) matches Some(n) && {
                let line = s.subrange(pos + 1, pos + 1 + n);
                &&& frame matches FrameModel::Bulk(data) ==> parse_decimal(line) == Some(
                    data.len() as u64,
                ) && data == s.subrange(pos + len - 2 - data.len(), pos + len - 2) && crlf_at(
                    s,
                    pos + len - 2,
                )
                &&& frame matches FrameModel::Array(items) ==> parse_decimal(line) == Some(
                    items.len() as u64,
                )
            }
        },
    decreases remaining(s, pos), 0nat,
{
    if pos < 0 || pos >= s.len() {
    } else if !is_sigil(s[pos]) {
    } else {
        lemma_line_len(s, pos + 1);
        match line_len(s, pos + 1) {
            None => {},
            Some(n) => {
                let line = s.subrange(pos + 1, pos + 1 + n);
                if s[pos] == SIGIL_ARRAY {
                    match parse_decimal(line) {
                        None => {},
                        Some(count) => {
                            lemma_parse_items_within(s, pos + 1 + n + 2, count as nat);
                        },
                    }
                }
            },
        }
    }
}

/// The frames that are parsed one after another are as many as were
/// expected, and lie within the bytes.
pub proof fn lemma_parse_items_within(s: Seq<u8>, pos: int, count: nat)
    requires
        0 <= pos <= s.len(),
    ensures
        parse_items(s, pos, count) matches ParsedItems::Complete { items, len } ==> items.len()
            == count && pos + len <= s.len(),
    decreases remaining(s, pos), count + 1,
{
    if count == 0 {
    } else if pos >= s.len() {
    } else {
        lemma_parse_within(s, pos);
        match parse_at(s, pos) {
            Parsed::Complete { frame, len } => {
                lemma_parse_items_within(s, pos + len, (count - 1) as nat);
            },
            _ => {},
        }
    }
}

/// A line that was found stays where it is when more bytes arrive.
pub proof fn lemma_line_len_extend(s: Seq<u8>, t: Seq<u8>, from: int)
    ensures
        line_len(s, from) is Some ==> line_len(s + t, from) == line_len(s, from),
    decreases s.len() - from,
{
    let longer = s + t;
    if from < 0 || from + 1 >= s.len() {
    } else {
        assert(longer[from] == s[from]);
        assert(longer[from + 1] == s[from + 1]);
        if s[from] == CR && s[from + 1] == LF {
        } else {
            lemma_line_len_extend(s, t, from + 1);
        }
    }
}

/// What was decided stays decided: a frame that is parsed from the bytes
/// at hand, or an error that is found in them, is the same whatever bytes
/// arrive after them.
pub proof fn lemma_parse_extend(s: Seq<u8>, t: Seq<u8>, pos: int)
    ensures
        !(parse_at(s, pos) is Incomplete) ==> parse_at(s + t, pos) == parse_at(s, pos),
    decreases remaining(s, pos), 0nat,
{
    let longer = s + t;
    if pos < 0 || pos >= s.len() {
    } else {
        assert(longer[pos] == s[pos]);
        if !is_sigil(s[pos]) {
        } else {
            lemma_line_len(s, pos + 1);
            lemma_line_len_extend(s, t, pos + 1);
            match line_len(s, pos + 1) {
                None => {},
                Some(n) => {
                    let line = s.subrange(pos + 1, pos + 1 + n);
                    let body = pos + 1 + n + 2;
                    assert(longer.subrange(pos + 1, pos + 1 + n) =~= line);
                    if s[pos] == SIGIL_BULK {
                        match parse_decimal(line) {
                            None => {},
                            Some(size) => {
                                if line != null_line() && body + size + 2 <= s.len() {
                                    assert(longer[body + size] == s[body + size]);
                                    assert(longer[body + size + 1] == s[body + size + 1]);
                                    assert(longer.subrange(body, body + size) =~= s.subrange(
                                        body,
                                        body + size,
                                    ));
                                }
                            },
                        }
                    } else if s[pos] == SIGIL_ARRAY {
                        match parse_decimal(line) {
                            None => {},
                            Some(count) => {
                                lemma_parse_items_extend(s, t, body, count as nat);
                            },
                        }
                    }
                },
            }
        }
    }
}

/// What was decided of a sequence of frames stays decided when more bytes
/// arrive.
pub proof fn lemma_parse_items_extend(s: Seq<u8>, t: Seq<u8>, pos: int, count: nat)
    ensures
        !(parse_items(s, pos, count) is Incomplete) ==> parse_items(s + t, pos, count)
            == parse_items(s, pos, count),
    decreases remaining(s, pos), count + 1,
{
    if count == 0 {
    } else if pos < 0 || pos >= s.len() {
    } else {
        lemma_parse_extend(s, t, pos);
        lemma_parse_within(s, pos);
        match parse_at(s, pos) {
            Parsed::Complete { frame, len } => {
                lemma_parse_items_extend(s, t, pos + len, (count - 1) as nat);
            },
            _ => {},
        }
    }
}

/// The length of the line that begins at `from`: the number of bytes before
/// the first line terminator, or `None` where the buffer holds none yet.
pub fn find_line(buf: &[u8], from: usize) -> (r: Option<usize>)
    ensures
        r is Some <==> line_len(buf@, from as int) is Some,
        r matches Some(n) ==> line_len(buf@, from as int) == Some(n as nat) && from + n + 2
            <= buf.len(),
{
    if from >= buf.len() {
        return None;
    }
    let last: usize = buf.len() - 1;
    let mut i: usize = from;
    while i < last
        invariant
            from <= i <= last,
            last == buf.len() - 1,
            line_len(buf@, from as int) == (match line_len(buf@, i as int) {
                Some(n) => Some((n + (i - from)) as nat),
                None => None,
            }),
        decreases last - i,
    {
        if buf[i] == CR && buf[i + 1] == LF {
            return Some(i - from);
        }
        i += 1;
    }
    None
}

/// Puts `head` and `used` bytes in front of what was parsed after them.
pub open spec fn prepend_items(head: Seq<FrameModel>, used: nat, tail: ParsedItems) -> ParsedItems {
    match tail {
        ParsedItems::Complete { items, len } => ParsedItems::Complete {
            items: head + items,
            len: used + len,
        },
        ParsedItems::Incomplete => ParsedItems::Incomplete,
        ParsedItems::Invalid(e) => ParsedItems::Invalid(e),
    }
}

/// What a result of `parse` says of the bytes.
pub open spec fn parse_outcome(r: Result<(Frame, usize), FrameError>) -> Parsed {
    match r {
        Ok((frame, used)) => Parsed::Complete { frame: frame@, len: used as nat },
        Err(FrameError::Incomplete) => Parsed::Incomplete,
        Err(FrameError::Other(e)) => Parsed::Invalid(e),
    }
}

/// Parses the frame that begins at `pos` of `buf`. Returns the frame and the
/// number of bytes it takes up; `Incomplete` where the buffer ends before the
/// frame does; the protocol error where the bytes begin no frame.
pub fn parse(buf: &[u8], pos: usize) -> (r: Result<(Frame, usize), FrameError>)
    ensures
        parse_outcome(r) == parse_at(buf@, pos as int),
        r matches Ok((_, used)) ==> pos + used <= buf.len(),
    decreases remaining(buf@, pos as int), 0nat,
{
    if pos >= buf.len() {
        return Err(FrameError::Incomplete);
    }
    let sigil: u8 = buf[pos];
    if sigil != SIGIL_SIMPLE && sigil != SIGIL_ERROR && sigil != SIGIL_INTEGER && sigil
        != SIGIL_BULK && sigil != SIGIL_ARRAY {
        return Err(FrameError::Other(ProtocolError::UnknownSigil));
    }
    let n: usize = match find_line(buf, pos + 1) {
        Some(n) => n,
        None => {
            return Err(FrameError::Incomplete);
        },
    };
    let line = slice_subrange(buf, pos + 1, pos + 1 + n);
    let body: usize = pos + 1 + n + 2;
    if sigil == SIGIL_SIMPLE {
        match text_from_bytes(line) {
            Some(text) => Ok((Frame::Simple(text), n + 3)),
            None => Err(FrameError::Other(ProtocolError::InvalidText)),
        }
    } else if sigil == SIGIL_ERROR {
        match text_from_bytes(line) {
            Some(text) => Ok((Frame::Error(text), n + 3)),
            None => Err(FrameError::Other(ProtocolError::InvalidText)),
        }
    } else if sigil == SIGIL_INTEGER {
        match read_decimal(line) {
            Some(v) => Ok((Frame::Integer(v), n + 3)),
            None => Err(FrameError::Other(ProtocolError::InvalidNumber)),
        }
    } else if sigil == SIGIL_BULK {
        if n == 2 && line[0] == 45u8 && line[1] == 49u8 {
            assert(line@ =~= null_line());
            return Ok((Frame::Null, n + 3));
        }
        assert(line@ != null_line());
        match read_decimal(line) {
            None => Err(FrameError::Other(ProtocolError::InvalidNumber)),
            Some(size) => {
                let left: usize = buf.len() - body;
                if size > u64::MAX - 2 || size + 2 > left as u64 {
                    return Err(FrameError::Incomplete);
                }
                let size: usize = size as usize;
                if buf[body + size] != CR || buf[body + size + 1] != LF {
                    return Err(FrameError::Other(ProtocolError::MissingTerminator));
                }
                let data = bytes_from_slice(slice_subrange(buf, body, body + size));
                Ok((Frame::Bulk(data), n + 3 + size + 2))
            },
        }
    } else {
        match read_decimal(line) {
            None => Err(FrameError::Other(ProtocolError::InvalidNumber)),
            Some(count) => {
                let mut items: Vec<Frame> = Vec::new();
                let mut cur: usize = body;
                let mut k: u64 = 0;
                assert(frame_models(items@) =~= Seq::<FrameModel>::empty());
                while k < count
                    invariant
                        pos < body <= cur <= buf.len(),
                        k <= count,
                        parse_at(buf@, pos as int) == array_outcome(
                            (body - pos) as nat,
                            parse_items(buf@, body as int, count as nat),
                        ),
                        parse_items(buf@, body as int, count as nat) == prepend_items(
                            frame_models(items@),
                            (cur - body) as nat,
                            parse_items(buf@, cur as int, (count - k) as nat),
                        ),
                    decreases count - k,
                {
                    if cur >= buf.len() {
                        return Err(FrameError::Incomplete);
                    }
                    let ghost before = items@;
                    match parse(buf, cur) {
                        Err(e) => {
                            return Err(e);
                        },
                        Ok((frame, used)) => {
                            items.push(frame);
                            proof {
                                assert(items@.drop_last() =~= before);
                                let tail = parse_items(
                                    buf@,
                                    cur + used,
                                    (count - k - 1) as nat,
                                );
                                if let ParsedItems::Complete { items: rest, len } = tail {
                                    assert(frame_models(before) + (seq![frame@] + rest)
                                        =~= frame_models(items@) + rest);
                                }
                            }
                            cur = cur + used;
                            k += 1;
                        },
                    }
                }
                assert(frame_models(items@) + Seq::<FrameModel>::empty() =~= frame_models(
                    items@,
                ));
                Ok((Frame::Array(items), cur - pos))
            },
        }
    }
}

} // verus!
