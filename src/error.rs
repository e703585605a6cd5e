//! The ways a stream can fail.
use vstd::prelude::*;

verus! {

/// Why a stream ended without completing. Every one of them is final: the
/// stream is not resumed.
#[derive(Clone, Copy, Debug, PartialEq, Eq, Structural)]
pub enum StreamError {
    /// Reading from the transport failed.
    Transport,
    /// The body ended in the middle of a frame.
    FrameTruncation,
    /// A frame's payload is not a valid chunk.
    PayloadDecode,
    /// The body ended cleanly, but the end-of-stream sentinel never came.
    ProtocolViolation,
}

impl StreamError {
    /// A short description of the error.
    pub fn message(&self) -> (r: &'static str)
        ensures
            r@ == match self {
                StreamError::Transport => "transport error"@,
                StreamError::FrameTruncation => "stream ended in the middle of a frame"@,
                StreamError::PayloadDecode => "frame payload could not be decoded"@,
                StreamError::ProtocolViolation => "stream ended without its end-of-stream sentinel"@,
            },
    {
        match self {
            StreamError::Transport => "transport error",
            StreamError::FrameTruncation => "stream ended in the middle of a frame",
            StreamError::PayloadDecode => "frame payload could not be decoded",
            StreamError::ProtocolViolation => "stream ended without its end-of-stream sentinel",
        }
    }
}

} // verus!
