//! The radar reader's decisions: how the byte buffer is advanced and what
//! each outcome of the serial port and of the frame decoder means.
//!
//! The reader fills a fixed buffer from the serial port and feeds it to a
//! streaming frame decoder. A decoded frame is handed to the recorder and
//! the buffer restarts (bytes arriving during the photograph are stale); a
//! truncated frame waits for more bytes; a malformed frame is skipped when
//! the encoding recovers, otherwise the buffer is dropped. Serial timeouts
//! are silent; any other serial error ends the reader, firing its
//! monitors.

use vstd::prelude::*;

verus! {

/// Size of the read buffer, in bytes.
pub const READ_BUFFER_SIZE: usize = 4096;

/// What one serial read returned.
pub enum ReadEvent {
    /// This many bytes arrived.
    Data(usize),
    /// The read timed out with nothing to hand over.
    TimedOut,
    /// The port failed for good.
    Fatal,
}

/// What to do after a serial read.
pub enum ReadAction {
    /// Feed the buffered bytes to the decoder.
    FeedDecoder,
    /// Do nothing and read again.
    Ignore,
    /// End the reader; its monitors fire.
    Terminate,
}

/// What one decoder call returned.
pub enum DecodeEvent {
    /// A complete frame was decoded.
    FrameDecoded,
    /// The buffer holds no complete frame yet.
    NeedMoreData,
    /// The buffer starts with a frame that cannot be decoded.
    Malformed,
}

/// What to do after a decoder call.
pub enum DecodeAction {
    /// Hand the frame's text to the recorder, flush the serial input, and
    /// pause briefly.
    HandleFrame,
    /// Keep the buffer and read more bytes.
    AwaitMoreData,
    /// Skip the bad frame and go on decoding.
    SkipFrame,
    /// Drop the whole buffer and start over.
    DropBuffer,
}

/// How much of the read buffer is filled.
pub struct ReaderState {
    pub offset: usize,
}

impl ReaderState {
    pub open spec fn wf(self) -> bool {
        self.offset <= READ_BUFFER_SIZE
    }

    /// An empty buffer.
    pub fn new() -> (s: ReaderState)
        ensures
            s.offset == 0,
            s.wf(),
    {
        ReaderState { offset: 0 }
    }

    /// Applies one serial read outcome: data extends the buffer and goes
    /// to the decoder, a timeout is a silent no-op, any other error ends
    /// the reader.
    pub fn on_read(&mut self, ev: &ReadEvent) -> (a: ReadAction)
        requires
            old(self).wf(),
            (*ev matches ReadEvent::Data(n) ==> old(self).offset + n <= READ_BUFFER_SIZE),
        ensures
            final(self).wf(),
            match *ev {
                ReadEvent::Data(n) => final(self).offset == old(self).offset + n
                    && a is FeedDecoder,
                ReadEvent::TimedOut => final(self).offset == old(self).offset && a is Ignore,
                ReadEvent::Fatal => final(self).offset == old(self).offset && a is Terminate,
            },
    {
        match ev {
            ReadEvent::Data(n) => {
                self.offset = self.offset + *n;
                ReadAction::FeedDecoder
            },
            ReadEvent::TimedOut => ReadAction::Ignore,
            ReadEvent::Fatal => ReadAction::Terminate,
        }
    }

    /// Applies one decoder outcome: a frame goes to the recorder and the
    /// buffer restarts; a truncated frame waits for more bytes; a
    /// malformed one is skipped where the encoding recovers, else the
    /// buffer is dropped.
    pub fn on_decode(&mut self, ev: &DecodeEvent, can_recover: bool) -> (a: DecodeAction)
        requires
            old(self).wf(),
        ensures
            final(self).wf(),
            match *ev {
                DecodeEvent::FrameDecoded => final(self).offset == 0 && a is HandleFrame,
                DecodeEvent::NeedMoreData => final(self).offset == old(self).offset
                    && a is AwaitMoreData,
                DecodeEvent::Malformed => if can_recover {
                    final(self).offset == old(self).offset && a is SkipFrame
                } else {
                    final(self).offset == 0 && a is DropBuffer
                },
            },
    {
        match ev {
            DecodeEvent::FrameDecoded => {
                self.offset = 0;
                DecodeAction::HandleFrame
            },
            DecodeEvent::NeedMoreData => DecodeAction::AwaitMoreData,
            DecodeEvent::Malformed => {
                if can_recover {
                    DecodeAction::SkipFrame
                } else {
                    self.offset = 0;
                    DecodeAction::DropBuffer
                }
            },
        }
    }
}

} // verus!
