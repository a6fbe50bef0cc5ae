//! The connection's read buffer and the decisions of reading and writing
//! frames. The transport itself stays with the caller: the caller performs
//! each read that `read_frame` asks for and hands in what it produced, and
//! writes the bytes that `write_frame` hands out.

use crate::decode::{parse, parse_at, FrameError, Parsed, ProtocolError};
use crate::frame::{Frame, FrameModel};
use crate::wire::{append_bytes, encode};
use vstd::prelude::*;
use vstd::string::StringExecFns;

verus! {

/// The error of a failed read or write on the transport.
#[verifier::external_type_specification]
#[verifier::external_body]
pub struct ExIoError(std::io::Error);

/// Why reading a frame failed.
#[derive(Debug)]
pub enum ConnectionError {
    /// The buffered bytes contradict the grammar.
    Protocol(ProtocolError),
    /// The peer closed the stream in the middle of a frame.
    Reset,
    /// A read on the transport failed; the error is handed on as it came.
    Io(std::io::Error),
}

/// Calls `<std::io::Error as ToString>::to_string`, which gives the error's
/// own description. Nothing is claimed of the text.
#[verifier::external_body]
pub(crate) fn io_error_text(e: &std::io::Error) -> (s: String) {
    e.to_string()
}

impl ConnectionError {
    /// A line of text that says what went wrong: the protocol error's own
    /// message, `connection reset by peer`, or the transport's description
    /// of its error.
    pub fn message(&self) -> (s: String)
        ensures
            self matches ConnectionError::Protocol(e) ==> s@ == e.message_text(),
            self is Reset ==> s@ == "connection reset by peer"@,
    {
        match self {
            ConnectionError::Protocol(e) => e.message(),
            ConnectionError::Reset => String::from_str("connection reset by peer"),
            ConnectionError::Io(e) => io_error_text(e),
        }
    }
}

/// What one step of the transport produced.
#[derive(Debug)]
pub enum ReadEvent {
    /// Nothing yet: the caller begins to read a frame.
    Start,
    /// One read returned these bytes. No bytes at all means that the peer
    /// closed the stream.
    Data(Vec<u8>),
    /// One read found the transport not ready: nothing was read, and the
    /// read is to be tried again.
    WouldBlock,
    /// One read failed.
    Failed(std::io::Error),
}

/// What the caller does next.
#[derive(Debug)]
pub enum ReadAction {
    /// A whole frame was buffered: reading is done.
    Deliver(Frame),
    /// The buffer ends before a frame does: perform one read and hand in
    /// what it produced.
    Read,
    /// The peer closed the stream between two frames: reading is done, and
    /// no frame is left.
    EndOfStream,
}

/// What a step decides, as a plain value.
pub ghost enum Decision {
    Deliver(FrameModel),
    Read,
    EndOfStream,
    Protocol(ProtocolError),
    Reset,
}

/// The decision on the buffered bytes alone, and the bytes that stay
/// buffered: a whole frame at the front is delivered and leaves the buffer.
pub open spec fn poll(buffered: Seq<u8>) -> (Decision, Seq<u8>) {
    match parse_at(buffered, 0) {
        Parsed::Complete { frame, len } => (Decision::Deliver(frame), buffered.skip(len as int)),
        Parsed::Incomplete => (Decision::Read, buffered),
        Parsed::Invalid(e) => (Decision::Protocol(e), buffered),
    }
}

/// The decision after one read that returned `chunk`. With no bytes the
/// stream is closed: cleanly where nothing is buffered, in the middle of a
/// frame otherwise. With bytes, they join the buffer, which is polled.
pub open spec fn on_data(buffered: Seq<u8>, chunk: Seq<u8>) -> (Decision, Seq<u8>) {
    if chunk.len() == 0 {
        if buffered.len() == 0 {
            (Decision::EndOfStream, buffered)
        } else {
            (Decision::Reset, buffered)
        }
    } else {
        poll(buffered + chunk)
    }
}

/// What a result of `read_frame` decides. A failed read has no decision of
/// the grammar behind it.
pub open spec fn decision_of(r: Result<ReadAction, ConnectionError>) -> Option<Decision> {
    match r {
        Ok(ReadAction::Deliver(frame)) => Some(Decision::Deliver(frame@)),
        Ok(ReadAction::Read) => Some(Decision::Read),
        Ok(ReadAction::EndOfStream) => Some(Decision::EndOfStream),
        Err(ConnectionError::Protocol(e)) => Some(Decision::Protocol(e)),
        Err(ConnectionError::Reset) => Some(Decision::Reset),
        Err(ConnectionError::Io(_)) => None,
    }
}

/// Drops the first `used` bytes of `buf` and moves the others to the front.
/// The buffer keeps its storage.
fn compact(buf: &mut Vec<u8>, used: usize)
    requires
        used <= old(buf)@.len(),
    ensures
        final(buf)@ == old(buf)@.skip(used as int),
{
    let rest: usize = buf.len() - used;
    let mut i: usize = 0;
    while i < rest
        invariant
            i <= rest,
            rest + used == buf.len(),
            buf@.len() == old(buf)@.len(),
            forall|j: int| 0 <= j < i ==> buf@[j] == old(buf)@[j + used],
            forall|j: int| i <= j < buf@.len() ==> buf@[j] == old(buf)@[j],
        decreases rest - i,
    {
        let b: u8 = buf[i + used];
        buf.set(i, b);
        i += 1;
    }
    buf.truncate(rest);
    assert(buf@ =~= old(buf)@.skip(used as int));
}

/// One end of a stream of frames: the bytes read so far that no delivered
/// frame has taken.
pub struct Connection {
    buffer: Vec<u8>,
}

impl View for Connection {
    type V = Seq<u8>;

    /// The buffered bytes, oldest first.
    closed spec fn view(&self) -> Seq<u8> {
        self.buffer@
    }
}

impl Connection {
    /// A connection with nothing buffered.
    pub fn new() -> (c: Connection)
        ensures
            c@ == Seq::<u8>::empty(),
    {
        Connection { buffer: Vec::new() }
    }

    /// The number of buffered bytes.
    pub fn buffered_len(&self) -> (n: usize)
        ensures
            n == self@.len(),
    {
        self.buffer.len()
    }

    /// Tries to take one whole frame from the front of the buffer. The bytes
    /// of a frame that is returned leave the buffer; otherwise the buffer
    /// stays as it is.
    pub fn parse_frame(&mut self) -> (r: Result<Option<Frame>, ProtocolError>)
        ensures
            match parse_at(old(self)@, 0) {
                Parsed::Complete { frame, len } => r matches Ok(Some(f)) && f@ == frame
                    && final(self)@ == old(self)@.skip(len as int),
                Parsed::Incomplete => r matches Ok(None) && final(self)@ == old(self)@,
                Parsed::Invalid(e) => r == Err::<Option<Frame>, ProtocolError>(e) && final(self)@
                    == old(self)@,
            },
    {
        match parse(self.buffer.as_slice(), 0) {
            Ok((frame, used)) => {
                compact(&mut self.buffer, used);
                Ok(Some(frame))
            },
            Err(FrameError::Incomplete) => Ok(None),
            Err(FrameError::Other(e)) => Err(e),
        }
    }

    /// One step of reading a frame. On `Start` the buffer is polled. On
    /// `Data` the bytes join the buffer, which is then polled; no bytes mean
    /// that the stream is closed, which ends the stream where nothing is
    /// buffered and is a reset otherwise. On `WouldBlock` the read is asked
    /// for again. On `Failed` the error is handed on.
    pub fn read_frame(&mut self, event: ReadEvent) -> (r: Result<ReadAction, ConnectionError>)
        ensures
            match event {
                ReadEvent::Start => (decision_of(r), final(self)@) == (
                    Some(poll(old(self)@).0),
                    poll(old(self)@).1,
                ),
                ReadEvent::Data(chunk) => (decision_of(r), final(self)@) == (
                    Some(on_data(old(self)@, chunk@).0),
                    on_data(old(self)@, chunk@).1,
                ),
                ReadEvent::WouldBlock => r matches Ok(ReadAction::Read) && final(self)@ == old(self)@,
                ReadEvent::Failed(e) => r matches Err(ConnectionError::Io(err)) && err == e
                    && final(self)@ == old(self)@,
            },
    {
        match event {
            ReadEvent::Failed(e) => {
                return Err(ConnectionError::Io(e));
            },
            ReadEvent::WouldBlock => {
                return Ok(ReadAction::Read);
            },
            ReadEvent::Data(chunk) => {
                if chunk.len() == 0 {
                    if self.buffer.len() == 0 {
                        return Ok(ReadAction::EndOfStream);
                    } else {
                        return Err(ConnectionError::Reset);
                    }
                }
                append_bytes(&mut self.buffer, chunk.as_slice());
            },
            ReadEvent::Start => {},
        }
        match self.parse_frame() {
            Ok(Some(frame)) => Ok(ReadAction::Deliver(frame)),
            Ok(None) => Ok(ReadAction::Read),
            Err(e) => Err(ConnectionError::Protocol(e)),
        }
    }

    /// The bytes to send for `frame`, whole: the caller writes them to the
    /// transport in one piece.
    pub fn write_frame(&self, frame: &Frame) -> (out: Vec<u8>)
        ensures
            out@ == encode(frame@),
    {
        frame.encode()
    }
}

} // verus!
