//! A frame arrives whole however the transport cuts its bytes into reads.

use crate::connection::{on_data, poll, Decision};
use crate::decode::{lemma_parse_extend, parse_at, Parsed};
use crate::frame::FrameModel;
use crate::render::render;
use crate::roundtrip::{encodable, lemma_encode_nonempty, lemma_parse_encoded, lemma_parse_prefix};
use crate::wire::encode;
use vstd::prelude::*;

verus! {

/// The bytes of `chunks`, one chunk after another.
pub open spec fn joined(chunks: Seq<Seq<u8>>) -> Seq<u8>
    decreases chunks.len(),
{
    if chunks.len() == 0 {
        Seq::<u8>::empty()
    } else {
        chunks[0] + joined(chunks.drop_first())
    }
}

/// The decision that ends a run of reads, and the bytes buffered then: each
/// read hands in the next chunk, for as long as the decision is to read on.
pub open spec fn feed(buffered: Seq<u8>, chunks: Seq<Seq<u8>>) -> (Decision, Seq<u8>)
    decreases chunks.len(),
{
    if chunks.len() == 0 {
        (Decision::Read, buffered)
    } else {
        let step = on_data(buffered, chunks[0]);
        if step.0 is Read {
            feed(step.1, chunks.drop_first())
        } else {
            step
        }
    }
}

/// How reading one frame ends: the buffer is polled first, and the reads
/// follow only where it holds no whole frame.
pub open spec fn deliver(buffered: Seq<u8>, chunks: Seq<Seq<u8>>) -> (Decision, Seq<u8>) {
    let start = poll(buffered);
    if start.0 is Read {
        feed(start.1, chunks)
    } else {
        start
    }
}

/// Round trip: the encoding of an encodable frame, alone in the buffer,
/// is decoded as that frame, which therefore renders as the frame did, and
/// nothing stays buffered.
pub proof fn lemma_round_trip(m: FrameModel)
    requires
        encodable(m),
    ensures
        parse_at(encode(m), 0) == (Parsed::Complete { frame: m, len: encode(m).len() }),
        parse_at(encode(m), 0) matches Parsed::Complete { frame, .. } && render(frame) == render(m),
        poll(encode(m)) == (Decision::Deliver(m), Seq::<u8>::empty()),
{
    let e = encode(m);
    lemma_parse_encoded(Seq::<u8>::empty(), m, Seq::<u8>::empty());
    assert(Seq::<u8>::empty() + e + Seq::<u8>::empty() =~= e);
    assert(e.skip(e.len() as int) =~= Seq::<u8>::empty());
}

/// One read that brings bytes decides as polling the grown buffer does.
proof fn lemma_feed_one(buffered: Seq<u8>, chunk: Seq<u8>)
    requires
        chunk.len() > 0,
    ensures
        feed(buffered, seq![chunk]).0 == poll(buffered + chunk).0,
{
    let one = seq![chunk];
    let step = on_data(buffered, chunk);
    assert(one[0] == chunk);
    assert(one.drop_first() =~= Seq::<Seq<u8>>::empty());
    assert(feed(step.1, one.drop_first()) == (Decision::Read, step.1));
}

/// Chunking does not matter: reads that bring bytes in chunks of any sizes
/// but zero end with the decision that one read of all those bytes ends
/// with, for any bytes at all.
pub proof fn lemma_chunking(buffered: Seq<u8>, chunks: Seq<Seq<u8>>)
    requires
        chunks.len() > 0,
        forall|i: int| 0 <= i < chunks.len() ==> (#[trigger] chunks[i]).len() > 0,
    ensures
        feed(buffered, chunks).0 == feed(buffered, seq![joined(chunks)]).0,
        feed(buffered, chunks).0 == poll(buffered + joined(chunks)).0,
    decreases chunks.len(),
{
    let chunk = chunks[0];
    let rest = chunks.drop_first();
    let grown = buffered + chunk;
    let all = joined(chunks);
    assert(buffered + all =~= grown + joined(rest));
    assert(all.len() > 0);
    lemma_feed_one(buffered, all);
    if rest.len() == 0 {
        assert(joined(rest) =~= Seq::<u8>::empty());
        assert(all =~= chunk);
        assert(chunks =~= seq![all]);
    } else if poll(grown).0 is Read {
        assert forall|i: int| 0 <= i < rest.len() implies (#[trigger] rest[i]).len() > 0 by {
            assert(rest[i] == chunks[i + 1]);
        }
        lemma_chunking(grown, rest);
    } else {
        lemma_parse_extend(grown, joined(rest), 0);
    }
}

/// With part of a frame buffered, the reads that bring the rest of it, in
/// chunks of any sizes but zero, end with the frame delivered.
proof fn lemma_feed_rest(m: FrameModel, buffered: Seq<u8>, chunks: Seq<Seq<u8>>)
    requires
        encodable(m),
        chunks.len() > 0,
        forall|i: int| 0 <= i < chunks.len() ==> (#[trigger] chunks[i]).len() > 0,
        buffered + joined(chunks) == encode(m),
    ensures
        feed(buffered, chunks) == (Decision::Deliver(m), Seq::<u8>::empty()),
    decreases chunks.len(),
{
    let e = encode(m);
    let chunk = chunks[0];
    let rest = chunks.drop_first();
    let grown = buffered + chunk;
    assert(grown + joined(rest) =~= e);
    if rest.len() == 0 {
        assert(joined(rest) =~= Seq::<u8>::empty());
        assert(grown =~= e);
        lemma_round_trip(m);
    } else {
        assert(rest[0] == chunks[1]);
        assert(joined(rest).len() >= rest[0].len());
        assert(grown =~= e.take(grown.len() as int));
        lemma_parse_prefix(Seq::<u8>::empty(), m, grown.len() as int);
        assert(Seq::<u8>::empty() + e.take(grown.len() as int) =~= grown);
        assert forall|i: int| 0 <= i < rest.len() implies (#[trigger] rest[i]).len() > 0 by {
            assert(rest[i] == chunks[i + 1]);
        }
        lemma_feed_rest(m, grown, rest);
    }
}

/// Incremental delivery: however the encoding of an encodable frame is cut
/// into chunks, none of them empty, reading them one by one into an empty
/// buffer delivers the frame, as reading all of it at once does.
pub proof fn lemma_incremental_delivery(m: FrameModel, chunks: Seq<Seq<u8>>)
    requires
        encodable(m),
        forall|i: int| 0 <= i < chunks.len() ==> (#[trigger] chunks[i]).len() > 0,
        joined(chunks) == encode(m),
    ensures
        deliver(Seq::<u8>::empty(), chunks) == (Decision::Deliver(m), Seq::<u8>::empty()),
        deliver(Seq::<u8>::empty(), chunks) == deliver(Seq::<u8>::empty(), seq![encode(m)]),
{
    let none = Seq::<u8>::empty();
    let e = encode(m);
    lemma_encode_nonempty(m);
    assert(none + joined(chunks) =~= e);
    lemma_feed_rest(m, none, chunks);
    let whole = seq![e];
    assert(whole.drop_first() =~= Seq::<Seq<u8>>::empty());
    assert(joined(whole.drop_first()) =~= none);
    assert(whole[0] == e);
    assert(joined(whole) =~= e);
    assert(none + joined(whole) =~= e);
    lemma_feed_rest(m, none, whole);
}

/// Clean close: where the stream closes with nothing buffered, reading
/// ends with the end of the stream, and not with an error.
pub proof fn lemma_clean_close()
    ensures
        deliver(Seq::<u8>::empty(), seq![Seq::<u8>::empty()]) == (
            Decision::EndOfStream,
            Seq::<u8>::empty(),
        ),
{
}

/// Close in the middle of a frame: where the stream closes after a proper,
/// non-empty prefix of a frame's encoding was read, reading ends with a
/// reset.
pub proof fn lemma_mid_frame_close(m: FrameModel, k: int)
    requires
        encodable(m),
        0 < k < encode(m).len(),
    ensures
        deliver(Seq::<u8>::empty(), seq![encode(m).take(k), Seq::<u8>::empty()]) == (
            Decision::Reset,
            encode(m).take(k),
        ),
{
    let none = Seq::<u8>::empty();
    let part = encode(m).take(k);
    let chunks = seq![part, none];
    lemma_parse_prefix(none, m, k);
    assert(none + part =~= part);
    assert(chunks.drop_first() =~= seq![none]);
    assert(on_data(none, part) == (Decision::Read, part));
    assert(feed(part, seq![none]) == (Decision::Reset, part));
}

} // verus!
