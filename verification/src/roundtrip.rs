//! Decoding undoes encoding: what `encode` wrote, `parse_at` reads back.

use crate::decimal::{decimal, is_digit, lemma_decimal_value};
use crate::decode::{
    crlf_at, lemma_parse_extend, lemma_parse_within, line_len, parse_at, parse_items, Parsed,
    ParsedItems,
};
use crate::frame::{bytes_as_slice, lemma_frame_models, Frame, FrameModel};
use crate::wire::{
    crlf, encode, encode_all, null_line, CR, LF, SIGIL_ARRAY, SIGIL_BULK, SIGIL_ERROR,
    SIGIL_INTEGER, SIGIL_SIMPLE,
};
use vstd::prelude::*;
use vstd::string::StringSliceAdditionalSpecFns;
use vstd::utf8::{encode_utf8, encode_utf8_decode_utf8, encode_utf8_valid_utf8};

verus! {

/// Whether no line terminator stands within `line`.
pub open spec fn no_crlf(line: Seq<u8>) -> bool {
    forall|i: int| !#[trigger] crlf_at(line, i)
}

/// Whether a frame can be written so that it can be read back: the text of
/// a simple string or of an error holds no line terminator, and lengths and
/// counts fit in 64 bits.
pub open spec fn encodable(m: FrameModel) -> bool
    decreases m,
{
    match m {
        FrameModel::Simple(text) => no_crlf(encode_utf8(text)),
        FrameModel::Error(text) => no_crlf(encode_utf8(text)),
        FrameModel::Integer(_) => true,
        FrameModel::Bulk(data) => data.len() <= u64::MAX,
        FrameModel::Null => true,
        FrameModel::Array(items) => items.len() <= u64::MAX && forall|i: int|
            0 <= i < items.len() ==> encodable(#[trigger] items[i]),
    }
}

/// Whether no line terminator stands within `line`.
pub fn holds_no_crlf(line: &[u8]) -> (r: bool)
    ensures
        r == no_crlf(line@),
{
    if line.len() < 2 {
        return true;
    }
    let last: usize = line.len() - 1;
    let mut i: usize = 0;
    while i < last
        invariant
            i <= last,
            last == line.len() - 1,
            forall|j: int| j < i ==> !#[trigger] crlf_at(line@, j),
        decreases last - i,
    {
        if line[i] == CR && line[i + 1] == LF {
            assert(crlf_at(line@, i as int));
            return false;
        }
        i += 1;
    }
    true
}

/// Whether `frame` can be written so that it can be read back.
pub fn is_encodable(frame: &Frame) -> (r: bool)
    ensures
        r == encodable(frame@),
    decreases frame,
{
    match frame {
        Frame::Simple(text) => holds_no_crlf(text.as_str().as_bytes()),
        Frame::Error(text) => holds_no_crlf(text.as_str().as_bytes()),
        Frame::Integer(_) => true,
        Frame::Bulk(data) => {
            let size: usize = bytes_as_slice(data).len();
            assert(size <= u64::MAX);
            true
        },
        Frame::Null => true,
        Frame::Array(items) => {
            let ghost models = frame@->Array_0;
            proof {
                lemma_frame_models(items@);
            }
            let mut i: usize = 0;
            while i < items.len()
                invariant
                    i <= items.len(),
                    *frame == Frame::Array(*items),
                    models == frame@->Array_0,
                    models.len() == items.len(),
                    forall|j: int| 0 <= j < items.len() ==> models[j] == (#[trigger] items@[j])@,
                    forall|j: int| 0 <= j < i ==> encodable(#[trigger] models[j]),
                decreases items.len() - i,
            {
                proof {
                    assert(decreases_to!(*frame => frame->Array_0));
                    assert(decreases_to!(*items => items[i as int]));
                }
                if !is_encodable(&items[i]) {
                    assert(!encodable(models[i as int]));
                    return false;
                }
                i += 1;
            }
            true
        },
    }
}

/// A terminator at `from + n` with none before it is the one `line_len` finds.
proof fn lemma_line_found(s: Seq<u8>, from: int, n: nat)
    requires
        0 <= from,
        crlf_at(s, from + n),
        forall|j: int| from <= j < from + n ==> !crlf_at(s, j),
    ensures
        line_len(s, from) == Some(n),
    decreases n,
{
    if n > 0 {
        assert(!crlf_at(s, from));
        lemma_line_found(s, from + 1, (n - 1) as nat);
    }
}

/// A numeral holds no line terminator and is not the null marker.
proof fn lemma_decimal_line(n: nat)
    ensures
        no_crlf(decimal(n)),
        decimal(n) != null_line(),
        decimal(n).len() > 0,
        forall|i: int| 0 <= i < decimal(n).len() ==> decimal(n)[i] != CR,
{
    lemma_decimal_value(n);
    let d = decimal(n);
    assert forall|i: int| 0 <= i < d.len() implies d[i] != CR by {
        assert(is_digit(d[i]));
    }
    assert(is_digit(d[0]));
    assert(null_line()[0] == 45u8);
}

/// A sigil, a line, a terminator, and what follows them.
pub open spec fn framed(sigil: u8, line: Seq<u8>, tail: Seq<u8>) -> Seq<u8> {
    seq![sigil] + line + crlf() + tail
}

/// After any bytes `a`, the header of `framed` reads back: the sigil, then
/// the line up to the terminator that was written behind it.
proof fn lemma_header(a: Seq<u8>, sigil: u8, line: Seq<u8>, tail: Seq<u8>)
    requires
        no_crlf(line),
    ensures
        ({
            let s = a + framed(sigil, line, tail);
            let pos = a.len() as int;
            &&& s.len() == a.len() + line.len() + 3 + tail.len()
            &&& s[pos] == sigil
            &&& line_len(s, pos + 1) == Some(line.len())
            &&& s.subrange(pos + 1, pos + 1 + line.len()) == line
            &&& s.subrange(pos + 1 + line.len() + 2, s.len() as int) == tail
        }),
{
    let s = a + framed(sigil, line, tail);
    let pos = a.len() as int;
    let from = pos + 1;
    let n = line.len();
    assert(s[pos] == sigil);
    assert forall|i: int| 0 <= i < n implies s[from + i] == line[i] by {}
    assert(s[from + n] == CR);
    assert(s[from + n + 1] == LF);
    assert forall|j: int| from <= j < from + n implies !crlf_at(s, j) by {
        if j + 1 < from + n {
            assert(s[j] == line[j - from]);
            assert(s[j + 1] == line[j - from + 1]);
            assert(!crlf_at(line, j - from));
        } else {
            assert(s[j + 1] == CR);
        }
    }
    lemma_line_found(s, from, n);
    assert(s.subrange(pos + 1, pos + 1 + line.len()) =~= line);
    assert(s.subrange(pos + 1 + line.len() + 2, s.len() as int) =~= tail);
}

/// The encodings of a non-empty sequence begin with that of its first frame.
proof fn lemma_encode_all_front(items: Seq<FrameModel>)
    requires
        items.len() > 0,
    ensures
        encode_all(items) == encode(items[0]) + encode_all(items.drop_first()),
    decreases items.len(),
{
    let front = items.drop_last();
    let rest = items.drop_first();
    if items.len() == 1 {
        assert(front =~= Seq::<FrameModel>::empty());
        assert(rest =~= Seq::<FrameModel>::empty());
        assert(encode_all(front) =~= Seq::<u8>::empty());
        assert(encode_all(items) =~= encode(items[0]) + encode_all(rest));
    } else {
        lemma_encode_all_front(front);
        assert(rest.drop_last() =~= front.drop_first());
        assert(rest.last() == items.last());
        assert(front[0] == items[0]);
        assert(encode_all(items) =~= encode(items[0]) + encode_all(rest));
    }
}

/// Reading back: wherever the encoding of an encodable frame stands, the
/// frame is parsed from it whole, and takes up exactly its encoding.
#[verifier::rlimit(30)]
pub proof fn lemma_parse_encoded(a: Seq<u8>, m: FrameModel, b: Seq<u8>)
    requires
        encodable(m),
    ensures
        parse_at(a + encode(m) + b, a.len() as int) == (Parsed::Complete {
            frame: m,
            len: encode(m).len(),
        }),
    decreases m,
{
    let s = a + encode(m) + b;
    let pos = a.len() as int;
    match m {
        FrameModel::Simple(text) => {
            let line = encode_utf8(text);
            assert(s =~= a + framed(SIGIL_SIMPLE, line, b));
            lemma_header(a, SIGIL_SIMPLE, line, b);
            encode_utf8_valid_utf8(text);
            encode_utf8_decode_utf8(text);
        },
        FrameModel::Error(text) => {
            let line = encode_utf8(text);
            assert(s =~= a + framed(SIGIL_ERROR, line, b));
            lemma_header(a, SIGIL_ERROR, line, b);
            encode_utf8_valid_utf8(text);
            encode_utf8_decode_utf8(text);
        },
        FrameModel::Integer(n) => {
            let line = decimal(n as nat);
            lemma_decimal_line(n as nat);
            lemma_decimal_value(n as nat);
            assert(s =~= a + framed(SIGIL_INTEGER, line, b));
            lemma_header(a, SIGIL_INTEGER, line, b);
        },
        FrameModel::Bulk(data) => {
            let line = decimal(data.len());
            lemma_decimal_line(data.len());
            lemma_decimal_value(data.len());
            let tail = data + crlf() + b;
            assert(s =~= a + framed(SIGIL_BULK, line, tail));
            lemma_header(a, SIGIL_BULK, line, tail);
            let body = pos + 1 + line.len() + 2;
            assert(s.subrange(body, body + data.len()) =~= data) by {
                assert(s.subrange(body, s.len() as int) == tail);
                assert forall|i: int| 0 <= i < data.len() implies s[body + i] == data[i] by {
                    assert(s.subrange(body, s.len() as int)[i] == tail[i]);
                }
            }
            assert(crlf_at(s, body + data.len())) by {
                let at = data.len() as int;
                assert(s.subrange(body, s.len() as int)[at] == tail[at]);
                assert(s.subrange(body, s.len() as int)[at + 1] == tail[at + 1]);
            }
        },
        FrameModel::Null => {
            let line = null_line();
            assert(s =~= a + framed(SIGIL_BULK, line, b));
            lemma_header(a, SIGIL_BULK, line, b);
        },
        FrameModel::Array(items) => {
            let line = decimal(items.len());
            lemma_decimal_line(items.len());
            lemma_decimal_value(items.len());
            let tail = encode_all(items) + b;
            assert(s =~= a + framed(SIGIL_ARRAY, line, tail));
            lemma_header(a, SIGIL_ARRAY, line, tail);
            let head = a + (seq![SIGIL_ARRAY] + line + crlf());
            assert(s =~= head + encode_all(items) + b);
            lemma_parse_encoded_items(head, items, b);
        },
    }
}

/// Reading back a sequence: wherever the encodings of encodable frames
/// stand one after another, they are parsed in order, all of them.
pub proof fn lemma_parse_encoded_items(a: Seq<u8>, items: Seq<FrameModel>, b: Seq<u8>)
    requires
        forall|i: int| 0 <= i < items.len() ==> encodable(#[trigger] items[i]),
    ensures
        parse_items(a + encode_all(items) + b, a.len() as int, items.len()) == (
        ParsedItems::Complete { items, len: encode_all(items).len() }),
    decreases items,
{
    let s = a + encode_all(items) + b;
    let pos = a.len() as int;
    if items.len() == 0 {
        assert(items =~= Seq::<FrameModel>::empty());
    } else {
        let first = items[0];
        let rest = items.drop_first();
        lemma_encode_all_front(items);
        assert(s =~= a + encode(first) + (encode_all(rest) + b));
        lemma_parse_encoded(a, first, encode_all(rest) + b);
        let next = a + encode(first);
        assert(s =~= next + encode_all(rest) + b);
        assert forall|i: int| 0 <= i < rest.len() implies encodable(#[trigger] rest[i]) by {
            assert(rest[i] == items[i + 1]);
        }
        lemma_parse_encoded_items(next, rest, b);
        assert(seq![first] + rest =~= items);
        lemma_encode_nonempty(first);
        assert(pos < s.len());
        assert(parse_at(s, pos) == (Parsed::Complete { frame: first, len: encode(first).len() }));
        assert(next.len() == pos + encode(first).len());
        assert(parse_items(s, pos + encode(first).len(), rest.len()) == (ParsedItems::Complete {
            items: rest,
            len: encode_all(rest).len(),
        }));
        assert(rest.len() == (items.len() - 1) as nat);
        assert(encode_all(items).len() == encode(first).len() + encode_all(rest).len());
    }
}

/// Cut short: a proper prefix of the encoding of an encodable frame is
/// the beginning of a frame whose end is not there yet.
pub proof fn lemma_parse_prefix(a: Seq<u8>, m: FrameModel, k: int)
    requires
        encodable(m),
        0 <= k < encode(m).len(),
    ensures
        parse_at(a + encode(m).take(k), a.len() as int) == Parsed::Incomplete,
{
    let part = a + encode(m).take(k);
    let rest = encode(m).skip(k);
    let pos = a.len() as int;
    lemma_parse_extend(part, rest, pos);
    lemma_parse_within(part, pos);
    lemma_parse_encoded(a, m, Seq::<u8>::empty());
    assert(part + rest =~= a + encode(m) + Seq::<u8>::empty());
}

/// Every encoding holds at least a sigil and a terminator.
pub proof fn lemma_encode_nonempty(m: FrameModel)
    ensures
        encode(m).len() >= 3,
{
}

} // verus!
