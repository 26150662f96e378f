//! Command frames spoken to the radar module over UART, and the scan that
//! recognises its acknowledgement frames.
//!
//! A frame is `header(4) + data_length(2, little endian) + data(N) +
//! footer(4)`; the largest payload is 8 bytes, so a frame is at most 18
//! bytes long.

use vstd::prelude::*;

verus! {

pub open spec fn header_seq() -> Seq<u8> {
    seq![0xFDu8, 0xFCu8, 0xFBu8, 0xFAu8]
}

pub open spec fn footer_seq() -> Seq<u8> {
    seq![0x04u8, 0x03u8, 0x02u8, 0x01u8]
}

/// The on-wire bytes of a command frame with payload `data`.
pub open spec fn frame_bytes(data: Seq<u8>) -> Seq<u8> {
    header_seq() + seq![data.len() as u8, 0u8] + data + footer_seq()
}

/// A command frame, fully assembled.
pub struct Frame {
    buffer: Vec<u8>,
}

impl View for Frame {
    type V = Seq<u8>;

    closed spec fn view(&self) -> Seq<u8> {
        self.buffer@
    }
}

impl Frame {
    /// Assembles the frame around `data`.
    pub fn new(data: &[u8]) -> (f: Frame)
        requires
            data@.len() <= 8,
        ensures
            f@ == frame_bytes(data@),
    {
        let mut buffer: Vec<u8> = Vec::new();
        buffer.push(0xFD);
        buffer.push(0xFC);
        buffer.push(0xFB);
        buffer.push(0xFA);
        buffer.push(data.len() as u8);
        buffer.push(0x00);
        let mut i: usize = 0;
        while i < data.len()
            invariant
                i <= data@.len() <= 8,
                buffer@ == header_seq() + seq![data@.len() as u8, 0u8] + data@.take(i as int),
            decreases data@.len() - i,
        {
            buffer.push(data[i]);
            i = i + 1;
            proof {
                assert(buffer@ =~= header_seq() + seq![data@.len() as u8, 0u8] + data@.take(
                    i as int,
                ));
            }
        }
        buffer.push(0x04);
        buffer.push(0x03);
        buffer.push(0x02);
        buffer.push(0x01);
        proof {
            assert(data@.take(data@.len() as int) =~= data@);
            assert(buffer@ =~= frame_bytes(data@));
        }
        Frame { buffer }
    }

    /// The assembled bytes, ready to be written to the UART.
    pub fn as_bytes(&self) -> (r: &[u8])
        ensures
            r@ == self@,
    {
        self.buffer.as_slice()
    }

    /// Enters command mode.
    pub fn open_command_mode() -> (f: Frame)
        ensures
            f@ == frame_bytes(seq![0xFFu8, 0x00u8, 0x01u8, 0x00u8]),
    {
        let data: [u8; 4] = [0xFF, 0x00, 0x01, 0x00];
        let f = Frame::new(data.as_slice());
        proof {
            assert(data@ =~= seq![0xFFu8, 0x00u8, 0x01u8, 0x00u8]);
        }
        f
    }

    /// Leaves command mode.
    pub fn close_command_mode() -> (f: Frame)
        ensures
            f@ == frame_bytes(seq![0xFEu8, 0x00u8]),
    {
        let data: [u8; 2] = [0xFE, 0x00];
        let f = Frame::new(data.as_slice());
        proof {
            assert(data@ =~= seq![0xFEu8, 0x00u8]);
        }
        f
    }

    /// Selects single-target detection.
    pub fn set_single_target() -> (f: Frame)
        ensures
            f@ == frame_bytes(seq![0x80u8, 0x00u8]),
    {
        let data: [u8; 2] = [0x80, 0x00];
        let f = Frame::new(data.as_slice());
        proof {
            assert(data@ =~= seq![0x80u8, 0x00u8]);
        }
        f
    }

    /// Selects multi-target detection.
    pub fn set_multi_target() -> (f: Frame)
        ensures
            f@ == frame_bytes(seq![0x90u8, 0x00u8]),
    {
        let data: [u8; 2] = [0x90, 0x00];
        let f = Frame::new(data.as_slice());
        proof {
            assert(data@ =~= seq![0x90u8, 0x00u8]);
        }
        f
    }
}

/// Whether `s` looks like a complete acknowledgement: it starts with the
/// frame header and ends with the frame footer.
pub open spec fn is_ack_frame(s: Seq<u8>) -> bool {
    s.len() >= 4 && s.take(4) == header_seq() && s.skip(s.len() - 4) == footer_seq()
}

/// One step of the acknowledgement scan: append the byte just read, report
/// whether a complete acknowledgement is now in the buffer, and restart the
/// scan when the buffer would overflow without one.
pub fn ack_push(buffer: &mut Vec<u8>, capacity: usize, b: u8) -> (done: bool)
    requires
        old(buffer)@.len() < capacity,
        4 <= capacity,
    ensures
        done == is_ack_frame(old(buffer)@.push(b)),
        done ==> final(buffer)@ == old(buffer)@.push(b),
        !done && old(buffer)@.len() + 1 < capacity ==> final(buffer)@ == old(buffer)@.push(b),
        !done && old(buffer)@.len() + 1 == capacity ==> final(buffer)@ == Seq::<u8>::empty(),
        !done ==> final(buffer)@.len() < capacity,
{
    buffer.push(b);
    let n = buffer.len();
    let done = n >= 4 && buffer[0] == 0xFD && buffer[1] == 0xFC && buffer[2] == 0xFB && buffer[3]
        == 0xFA && buffer[n - 4] == 0x04 && buffer[n - 3] == 0x03 && buffer[n - 2] == 0x02
        && buffer[n - 1] == 0x01;
    proof {
        if n >= 4 {
            assert(buffer@.take(4) =~= seq![buffer@[0], buffer@[1], buffer@[2], buffer@[3]]);
            assert(buffer@.skip(n - 4) =~= seq![
                buffer@[n - 4],
                buffer@[n - 3],
                buffer@[n - 2],
                buffer@[n - 1],
            ]);
            assert(header_seq() =~= seq![0xFDu8, 0xFCu8, 0xFBu8, 0xFAu8]);
            assert(footer_seq() =~= seq![0x04u8, 0x03u8, 0x02u8, 0x01u8]);
        }
    }
    if done {
        return true;
    }
    if buffer.len() >= capacity {
        buffer.clear();
    }
    false
}

} // verus!
