//! QEMU stream-netdev framing codec.
//!
//! QEMU's `-netdev stream` over SOCK_STREAM prefixes every ethernet frame
//! with a 4-byte big-endian length. This module writes that framing, and
//! reads it from the bytes that a stream has delivered so far.

use vstd::prelude::*;
use vstd::slice::{slice_subrange, slice_to_vec};

use crate::net::wire::{be32, push_bytes, push_u32, u32_at, u32_bytes};

verus! {

/// Sanity cap on a single frame: 64 KiB of L3 payload + ethernet header +
/// slack for the length prefix. Anything larger is a corrupt stream.
pub const MAX_FRAME_LEN: usize = 65554;

/// Why a stream or a frame is refused.
#[derive(Debug, Clone, Copy, PartialEq, Eq, Structural)]
pub enum FrameError {
    /// The stream closed in the middle of a length prefix.
    EofInPrefix,
    /// The stream closed in the middle of a frame.
    EofInBody,
    /// The length prefix exceeds the cap.
    LengthOverCap(u32),
    /// The frame to write exceeds the cap.
    FrameOverCap(usize),
}

/// What the bytes received so far amount to.
#[derive(Debug)]
pub enum ReadStep {
    /// A whole frame, and how many bytes of the stream it took.
    Frame { frame: Vec<u8>, used: usize },
    /// Not a whole frame yet.
    NeedMore,
    /// The stream closed exactly on a frame boundary.
    Closed,
    /// The stream is corrupt or was cut off.
    Failed(FrameError),
}

/// What a [`ReadStep`] says.
pub ghost enum ReadStepView {
    Frame { frame: Seq<u8>, used: int },
    NeedMore,
    Closed,
    Failed(FrameError),
}

impl View for ReadStep {
    type V = ReadStepView;

    open spec fn view(&self) -> ReadStepView {
        match *self {
            ReadStep::Frame { frame, used } => ReadStepView::Frame {
                frame: frame@,
                used: used as int,
            },
            ReadStep::NeedMore => ReadStepView::NeedMore,
            ReadStep::Closed => ReadStepView::Closed,
            ReadStep::Failed(e) => ReadStepView::Failed(e),
        }
    }
}

/// What the unread bytes `s` of a stream amount to; `eof` says that no more
/// will come.
pub open spec fn read_step(s: Seq<u8>, eof: bool) -> ReadStepView {
    if s.len() < 4 {
        if !eof {
            ReadStepView::NeedMore
        } else if s.len() == 0 {
            ReadStepView::Closed
        } else {
            ReadStepView::Failed(FrameError::EofInPrefix)
        }
    } else {
        let len = be32(s, 0);
        if len > MAX_FRAME_LEN {
            ReadStepView::Failed(FrameError::LengthOverCap(len as u32))
        } else if s.len() < 4 + len {
            if eof {
                ReadStepView::Failed(FrameError::EofInBody)
            } else {
                ReadStepView::NeedMore
            }
        } else {
            ReadStepView::Frame { frame: s.subrange(4, 4 + len), used: 4 + len }
        }
    }
}

/// Take one length-prefixed frame off the unread bytes of a stream. A stream
/// that ends on a frame boundary is closed; one that ends mid-prefix or
/// mid-body, or announces a length above [`MAX_FRAME_LEN`], has failed.
pub fn read_frame(buf: &[u8], eof: bool) -> (r: ReadStep)
    ensures
        r@ == read_step(buf@, eof),
{
    if buf.len() < 4 {
        return if !eof {
            ReadStep::NeedMore
        } else if buf.len() == 0 {
            ReadStep::Closed
        } else {
            ReadStep::Failed(FrameError::EofInPrefix)
        };
    }
    let prefix: u32 = u32_at(buf, 0);
    if prefix as usize > MAX_FRAME_LEN {
        return ReadStep::Failed(FrameError::LengthOverCap(prefix));
    }
    let len: usize = prefix as usize;
    if buf.len() - 4 < len {
        return if eof {
            ReadStep::Failed(FrameError::EofInBody)
        } else {
            ReadStep::NeedMore
        };
    }
    ReadStep::Frame { frame: slice_to_vec(slice_subrange(buf, 4, 4 + len)), used: 4 + len }
}

/// A frame behind its length prefix.
pub open spec fn framed(frame: Seq<u8>) -> Seq<u8> {
    u32_bytes(frame.len() as u32) + frame
}

/// Write one frame with its 4-byte big-endian length prefix.
pub fn write_frame(frame: &[u8]) -> (r: Result<Vec<u8>, FrameError>)
    ensures
        r is Ok <==> frame@.len() <= MAX_FRAME_LEN,
        r matches Ok(v) ==> v@ == framed(frame@),
        r matches Err(e) ==> e == FrameError::FrameOverCap(frame@.len() as usize),
{
    if frame.len() > MAX_FRAME_LEN {
        return Err(FrameError::FrameOverCap(frame.len()));
    }
    let mut out: Vec<u8> = Vec::new();
    push_u32(&mut out, frame.len() as u32);
    push_bytes(&mut out, frame);
    assert(out@ =~= framed(frame@));
    Ok(out)
}

/// A written frame is read back whole, whatever follows it.
pub proof fn frame_round_trip(frame: Seq<u8>, rest: Seq<u8>, eof: bool)
    requires
        frame.len() <= MAX_FRAME_LEN,
    ensures
        read_step(framed(frame) + rest, eof) == (ReadStepView::Frame {
            frame,
            used: framed(frame).len() as int,
        }),
        (framed(frame) + rest).skip(framed(frame).len() as int) == rest,
{
    let s = framed(frame) + rest;
    assert(s.subrange(0, 4) =~= u32_bytes(frame.len() as u32));
    crate::net::frame::lemma_be32_at(s, 0, frame.len() as u32);
    assert(s.subrange(4, 4 + frame.len() as int) =~= frame);
    assert(s.skip(framed(frame).len() as int) =~= rest);
}

/// As long as only a part of a written frame has arrived, more is needed.
pub proof fn partial_frame_needs_more(frame: Seq<u8>, n: int)
    requires
        frame.len() <= MAX_FRAME_LEN,
        0 <= n < framed(frame).len(),
    ensures
        read_step(framed(frame).take(n), false) == ReadStepView::NeedMore,
{
    let s = framed(frame).take(n);
    if n >= 4 {
        assert(s.subrange(0, 4) =~= u32_bytes(frame.len() as u32));
        crate::net::frame::lemma_be32_at(s, 0, frame.len() as u32);
    }
}

/// A stream of frames.
pub open spec fn stream(frames: Seq<Seq<u8>>) -> Seq<u8>
    decreases frames.len(),
{
    if frames.len() == 0 {
        Seq::empty()
    } else {
        framed(frames[0]) + stream(frames.drop_first())
    }
}

/// The frames of a stream that has ended, or `None` if it does not end on a
/// frame boundary.
pub open spec fn unstream(s: Seq<u8>) -> Option<Seq<Seq<u8>>>
    decreases s.len(),
{
    match read_step(s, true) {
        ReadStepView::Closed => Some(Seq::empty()),
        ReadStepView::Frame { frame, used } => if 0 < used <= s.len() {
            match unstream(s.skip(used)) {
                Some(rest) => Some(seq![frame] + rest),
                None => None,
            }
        } else {
            None
        },
        _ => None,
    }
}

/// Reading a stream of written frames gives back the frames, in order.
pub proof fn stream_round_trip(frames: Seq<Seq<u8>>)
    requires
        forall|i: int| 0 <= i < frames.len() ==> (#[trigger] frames[i]).len() <= MAX_FRAME_LEN,
    ensures
        unstream(stream(frames)) == Some(frames),
    decreases frames.len(),
{
    if frames.len() == 0 {
        assert(frames =~= Seq::<Seq<u8>>::empty());
    } else {
        let rest = frames.drop_first();
        assert forall|i: int| 0 <= i < rest.len() implies (#[trigger] rest[i]).len()
            <= MAX_FRAME_LEN by {
            assert(rest[i] == frames[i + 1]);
        }
        stream_round_trip(rest);
        frame_round_trip(frames[0], stream(rest), true);
        assert(seq![frames[0]] + rest =~= frames);
    }
}

/// A reader says of the bytes at hand exactly what they are: a whole frame as
/// soon as the announced number of bytes is there; corrupt as soon as the
/// announced length is over the cap; cut off only once the stream has ended
/// within a prefix or a frame; closed only when it has ended between frames.
pub proof fn reader_tells_the_states_apart(buf: &[u8], eof: bool, r: ReadStep)
    requires
        call_ensures(read_frame, (buf, eof), r),
    ensures
        ({
            let n = buf@.len();
            let len = buf@[0] * 0x100_0000 + buf@[1] * 0x1_0000 + buf@[2] * 0x100 + buf@[3];
            &&& r is Closed <==> n == 0 && eof
            &&& r is NeedMore <==> !eof && (n < 4 || (len <= 65554 && n < 4 + len))
            &&& r == ReadStep::Failed(FrameError::EofInPrefix) <==> eof && 0 < n < 4
            &&& r == ReadStep::Failed(FrameError::EofInBody) <==> eof && n >= 4 && len <= 65554 && n
                < 4 + len
            &&& n >= 4 && len > 65554 ==> r == ReadStep::Failed(
                FrameError::LengthOverCap(len as u32),
            )
            &&& n >= 4 && len <= 65554 && n >= 4 + len ==> (r matches ReadStep::Frame {
                frame,
                used,
            } && used == 4 + len && frame@ == buf@.subrange(4, 4 + len))
        }),
{
}

/// A frame is written behind its length, and refused only over the cap.
pub proof fn writer_counts_the_bytes(frame: &[u8], r: Result<Vec<u8>, FrameError>)
    requires
        call_ensures(write_frame, (frame,), r),
    ensures
        r is Err <==> frame@.len() > 65554,
        r matches Ok(v) ==> v@.len() == frame@.len() + 4 && v@.skip(4) == frame@ && v@[0]
            * 0x100_0000 + v@[1] * 0x1_0000 + v@[2] * 0x100 + v@[3] == frame@.len(),
{
    if let Ok(v) = r {
        assert(v@.skip(4) =~= frame@);
        crate::net::wire::lemma_u32_round_trip(frame@.len() as u32);
    }
}

} // verus!
