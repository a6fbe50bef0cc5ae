//! The decisions of a server that echoes the first few bytes it is sent.
//! The socket stays with the caller, who reads, and does what is decided.

use vstd::prelude::*;

verus! {

/// The most bytes that are read and echoed.
pub const ECHO_CAPACITY: usize = 3;

/// What one attempt to read from the socket produced.
#[derive(Debug)]
pub enum ReadOutcome {
    /// The read returned this many bytes.
    Received(usize),
    /// The socket was not ready after all.
    WouldBlock,
    /// The read failed with this error.
    Failed(std::io::Error),
}

/// What the server does after an attempt to read.
#[derive(Debug)]
pub enum EchoStep {
    /// The peer closed the connection: nothing is echoed.
    Closed,
    /// Write back this many bytes, shut the socket down, and report them.
    Echo(usize),
    /// Wait until the socket is readable, and read again.
    Retry,
    /// Give up with the error of the read, handed on as it came.
    Fail(std::io::Error),
}

/// Decides what follows an attempt to read.
pub fn echo_step(outcome: ReadOutcome) -> (step: EchoStep)
    ensures
        match outcome {
            ReadOutcome::Received(n) => if n == 0 {
                step is Closed
            } else {
                step matches EchoStep::Echo(k) && k == n
            },
            ReadOutcome::WouldBlock => step is Retry,
            ReadOutcome::Failed(e) => step matches EchoStep::Fail(x) && x == e,
        },
{
    match outcome {
        ReadOutcome::Received(n) => if n == 0 {
            EchoStep::Closed
        } else {
            EchoStep::Echo(n)
        },
        ReadOutcome::WouldBlock => EchoStep::Retry,
        ReadOutcome::Failed(e) => EchoStep::Fail(e),
    }
}

} // verus!
