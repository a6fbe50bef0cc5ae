//! The frames of the two commands that the client sends.

use crate::frame::{bytes_from_slice, frame_models, lemma_frame_models, Frame, FrameModel};
use vstd::prelude::*;
use vstd::string::StringSliceAdditionalSpecFns;

verus! {

/// The bytes of the command name `SET`.
pub open spec fn set_name() -> Seq<u8> {
    seq![83u8, 69u8, 84u8]
}

/// The bytes of the command name `GET`.
pub open spec fn get_name() -> Seq<u8> {
    seq![71u8, 69u8, 84u8]
}

/// How the client is called.
pub fn usage() -> (text: &'static str)
    ensures
        text@
            == "Usage:\n  redis-client [addr] set <key> <value>\n  redis-client [addr] get <key>\nExamples:\n  redis-client set foo bar\n  redis-client 127.0.0.1:6379 get foo\nIf addr omitted, defaults to 127.0.0.1:6379"@,
{
    "Usage:\n  redis-client [addr] set <key> <value>\n  redis-client [addr] get <key>\nExamples:\n  redis-client set foo bar\n  redis-client 127.0.0.1:6379 get foo\nIf addr omitted, defaults to 127.0.0.1:6379"
}

/// A bulk frame that holds a copy of `data`.
pub fn build_bulk(data: &[u8]) -> (frame: Frame)
    ensures
        frame@ == FrameModel::Bulk(data@),
{
    Frame::Bulk(bytes_from_slice(data))
}

/// The command that sets `key` to `value`: an array of the bulk strings
/// `SET`, `key` and `value`.
pub fn build_set_frame(key: &str, value: &str) -> (frame: Frame)
    ensures
        frame@ == FrameModel::Array(
            seq![
                FrameModel::Bulk(set_name()),
                FrameModel::Bulk(key.spec_bytes()),
                FrameModel::Bulk(value.spec_bytes()),
            ],
        ),
{
    let name: [u8; 3] = [83u8, 69u8, 84u8];
    let mut parts: Vec<Frame> = Vec::with_capacity(3);
    parts.push(build_bulk(name.as_slice()));
    parts.push(build_bulk(key.as_bytes()));
    parts.push(build_bulk(value.as_bytes()));
    proof {
        lemma_models_listed(parts@);
        assert(name@ =~= set_name());
    }
    Frame::Array(parts)
}

/// The command that asks for the value of `key`: an array of the bulk
/// strings `GET` and `key`.
pub fn build_get_frame(key: &str) -> (frame: Frame)
    ensures
        frame@ == FrameModel::Array(
            seq![FrameModel::Bulk(get_name()), FrameModel::Bulk(key.spec_bytes())],
        ),
{
    let name: [u8; 3] = [71u8, 69u8, 84u8];
    let mut parts: Vec<Frame> = Vec::with_capacity(2);
    parts.push(build_bulk(name.as_slice()));
    parts.push(build_bulk(key.as_bytes()));
    proof {
        lemma_models_listed(parts@);
        assert(name@ =~= get_name());
    }
    Frame::Array(parts)
}

/// The values of two or three frames, listed one by one.
proof fn lemma_models_listed(items: Seq<Frame>)
    ensures
        items.len() == 2 ==> frame_models(items) == seq![items[0]@, items[1]@],
        items.len() == 3 ==> frame_models(items) == seq![items[0]@, items[1]@, items[2]@],
{
    lemma_frame_models(items);
    if items.len() == 2 {
        assert(frame_models(items) =~= seq![items[0]@, items[1]@]);
    }
    if items.len() == 3 {
        assert(frame_models(items) =~= seq![items[0]@, items[1]@, items[2]@]);
    }
}

} // verus!
