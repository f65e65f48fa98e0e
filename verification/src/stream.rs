//! The stream reader's side of the pipeline: the accumulator that network
//! bytes are fed into, and the decisions of the read loop.

use crate::extractor::{
    byte_views, extract_all_jpegs, frames_in, lemma_chunking_does_not_matter,
    lemma_first_marker_none, lemma_residue_is_drained, next_frame, residue, SOI,
};
use crate::frame::{decode_jpeg, decode_outcome, Frame, FrameView};
use vstd::prelude::*;

verus! {

/// Room that a new accumulator reserves, in bytes.
pub const ACCUMULATOR_CAPACITY: usize = 300_000;

/// The accumulator is emptied once more than this many bytes are left in it
/// after extraction.
pub const ACCUMULATOR_CEILING: usize = 200_000;

/// How long the reader sleeps after a failed read, in milliseconds.
pub const READ_BACKOFF_MILLIS: u64 = 100;

/// What is kept of the bytes left after extraction: all of them, or none
/// where they exceed the ceiling.
pub open spec fn capped(left: Seq<u8>) -> Seq<u8> {
    if left.len() > ACCUMULATOR_CEILING {
        Seq::empty()
    } else {
        left
    }
}

/// Network bytes that have not been consumed yet, in arrival order.
pub struct ByteAccumulator {
    bytes: Vec<u8>,
}

impl View for ByteAccumulator {
    type V = Seq<u8>;

    closed spec fn view(&self) -> Seq<u8> {
        self.bytes@
    }
}

impl ByteAccumulator {
    /// Between two feeds the accumulator is bounded and holds no complete
    /// image.
    pub open spec fn wf(&self) -> bool {
        &&& self@.len() <= ACCUMULATOR_CEILING
        &&& next_frame(self@) is None
    }

    /// An empty accumulator.
    pub fn new() -> (acc: ByteAccumulator)
        ensures
            acc@ == Seq::<u8>::empty(),
            acc.wf(),
    {
        proof {
            lemma_first_marker_none(Seq::<u8>::empty(), 0, SOI);
        }
        ByteAccumulator { bytes: Vec::with_capacity(ACCUMULATOR_CAPACITY) }
    }

    /// Number of bytes held.
    pub fn len(&self) -> (n: usize)
        ensures
            n == self@.len(),
    {
        self.bytes.len()
    }

    /// Appends `chunk` and takes out every image that is now complete, in
    /// stream order. What is left stays for the next feed, unless it exceeds
    /// the ceiling: then all of it is dropped.
    pub fn feed(&mut self, chunk: &[u8]) -> (frames: Vec<Vec<u8>>)
        ensures
            byte_views(frames@) == frames_in(old(self)@ + chunk@),
            final(self)@ == capped(residue(old(self)@ + chunk@)),
            final(self).wf(),
    {
        self.bytes.extend_from_slice(chunk);
        assert(self.bytes@ =~= old(self)@ + chunk@);
        let frames = extract_all_jpegs(&mut self.bytes);
        proof {
            lemma_residue_is_drained(old(self)@ + chunk@);
        }
        if self.bytes.len() > ACCUMULATOR_CEILING {
            self.bytes.clear();
            proof {
                lemma_first_marker_none(Seq::<u8>::empty(), 0, SOI);
            }
        }
        frames
    }
}

/// The frames that a list of byte ranges decodes to, in order. A range that
/// does not decode leaves no trace.
pub open spec fn decoded_frames(ranges: Seq<Seq<u8>>) -> Seq<FrameView>
    decreases ranges.len(),
{
    if ranges.len() == 0 {
        Seq::empty()
    } else {
        let before = decoded_frames(ranges.drop_last());
        match decode_outcome(ranges.last()) {
            Ok(frame) => before.push(frame),
            Err(_) => before,
        }
    }
}

/// The views of a list of frames, in order.
pub open spec fn frame_views(frames: Seq<Frame>) -> Seq<FrameView> {
    frames.map_values(|frame: Frame| frame@)
}

/// Decodes each byte range and keeps the frames of those that decode, in
/// order. A failure is dropped without a word.
pub fn decode_frames(ranges: &Vec<Vec<u8>>) -> (frames: Vec<Frame>)
    ensures
        frame_views(frames@) == decoded_frames(byte_views(ranges@)),
        forall|i: int| 0 <= i < frames.len() ==> (#[trigger] frames[i])@.wf(),
{
    let mut frames: Vec<Frame> = Vec::new();
    let mut i: usize = 0;
    assert(byte_views(ranges@).take(0) =~= Seq::<Seq<u8>>::empty());
    while i < ranges.len()
        invariant
            i <= ranges.len(),
            frame_views(frames@) == decoded_frames(byte_views(ranges@).take(i as int)),
            forall|k: int| 0 <= k < frames.len() ==> (#[trigger] frames[k])@.wf(),
        decreases ranges.len() - i,
    {
        let ghost seen = frame_views(frames@);
        let ghost upto = byte_views(ranges@).take(i + 1);
        assert(upto.drop_last() =~= byte_views(ranges@).take(i as int));
        assert(upto.last() == ranges[i as int]@);
        match decode_jpeg(ranges[i].as_slice()) {
            Ok(frame) => {
                frames.push(frame);
                assert(frame_views(frames@) =~= seen.push(frame@));
            },
            Err(_) => {},
        }
        i += 1;
    }
    assert(byte_views(ranges@).take(i as int) =~= byte_views(ranges@));
    frames
}

/// Only complete rasters come out of decoding, whatever the bytes.
pub proof fn lemma_decoded_frames_are_whole(ranges: Seq<Seq<u8>>)
    ensures
        forall|i: int|
            0 <= i < decoded_frames(ranges).len() ==> (#[trigger] decoded_frames(ranges)[i]).wf(),
    decreases ranges.len(),
{
    if ranges.len() > 0 {
        lemma_decoded_frames_are_whole(ranges.drop_last());
        let before = decoded_frames(ranges.drop_last());
        assert forall|i: int| 0 <= i < decoded_frames(ranges).len() implies (
        #[trigger] decoded_frames(ranges)[i]).wf() by {
            if i < before.len() {
                assert(decoded_frames(ranges)[i] == before[i]);
            }
        }
    }
}

/// Decoding goes range by range: the frames of two lists, one after the
/// other, are the frames of the first followed by the frames of the second.
pub proof fn lemma_decoded_frames_of_two_lists(first: Seq<Seq<u8>>, second: Seq<Seq<u8>>)
    ensures
        decoded_frames(first + second) == decoded_frames(first) + decoded_frames(second),
    decreases second.len(),
{
    if second.len() == 0 {
        assert(first + second =~= first);
        assert(decoded_frames(first) + Seq::<FrameView>::empty() =~= decoded_frames(first));
    } else {
        lemma_decoded_frames_of_two_lists(first, second.drop_last());
        assert((first + second).drop_last() =~= first + second.drop_last());
        assert((first + second).last() == second.last());
        let earlier = decoded_frames(first) + decoded_frames(second.drop_last());
        match decode_outcome(second.last()) {
            Ok(frame) => {
                assert(earlier.push(frame) =~= decoded_frames(first) + decoded_frames(
                    second.drop_last(),
                ).push(frame));
            },
            Err(_) => {},
        }
    }
}

/// The cut between two reads does not show: as long as what the first read
/// leaves pending stays within the ceiling, two reads in a row yield the
/// frames, and leave the bytes, of one read that brings both chunks at once.
pub proof fn lemma_reads_add_up(pending: Seq<u8>, first: Seq<u8>, second: Seq<u8>)
    requires
        residue(pending + first).len() <= ACCUMULATOR_CEILING,
    ensures
        decoded_frames(frames_in(pending + first)) + decoded_frames(
            frames_in(capped(residue(pending + first)) + second),
        ) == decoded_frames(frames_in(pending + first + second)),
        capped(residue(capped(residue(pending + first)) + second)) == capped(
            residue(pending + first + second),
        ),
{
    lemma_chunking_does_not_matter(pending + first, second);
    lemma_decoded_frames_of_two_lists(
        frames_in(pending + first),
        frames_in(residue(pending + first) + second),
    );
}

/// What the read loop has just observed.
pub enum StreamEvent<'a> {
    /// The shutdown signal was raised.
    Shutdown,
    /// A read returned these bytes. No bytes at all: the stream was closed.
    Read(&'a [u8]),
    /// A read failed.
    ReadFailed,
}

/// What the read loop does next.
pub enum StreamAction {
    /// Leave the loop.
    Stop,
    /// Offer these frames to the cache, oldest first, then poll and read on.
    Publish(Vec<Frame>),
    /// Sleep for this many milliseconds, then poll and read on.
    Backoff(u64),
}

/// An action with its frames taken by their views.
pub enum StreamActionView {
    Stop,
    Publish(Seq<FrameView>),
    Backoff(u64),
}

impl View for StreamAction {
    type V = StreamActionView;

    open spec fn view(&self) -> StreamActionView {
        match *self {
            StreamAction::Stop => StreamActionView::Stop,
            StreamAction::Publish(frames) => StreamActionView::Publish(frame_views(frames@)),
            StreamAction::Backoff(millis) => StreamActionView::Backoff(millis),
        }
    }
}

/// The state of the read loop: the bytes not consumed yet, and whether the
/// loop has been left.
pub struct StreamReaderView {
    pub pending: Seq<u8>,
    pub stopped: bool,
}

impl StreamReaderView {
    /// What holds of every state that a reader reaches: the pending bytes
    /// stay within the ceiling, and no complete image is left among them.
    pub open spec fn wf(self) -> bool {
        &&& self.pending.len() <= ACCUMULATOR_CEILING
        &&& next_frame(self.pending) is None
    }
}

/// The read loop's rule: the state after `event` and the action it calls for.
///
/// The shutdown signal and a closed stream end the loop. Bytes are appended
/// to the pending ones, every image that is now complete is taken out and
/// decoded, and what is left is kept up to the ceiling. A failed read costs a
/// pause and changes nothing. Once the loop has been left, it stays left.
pub open spec fn stream_step(state: StreamReaderView, event: StreamEvent) -> (
    StreamReaderView,
    StreamActionView,
) {
    if state.stopped {
        (state, StreamActionView::Stop)
    } else {
        match event {
            StreamEvent::Shutdown => (
                StreamReaderView { stopped: true, ..state },
                StreamActionView::Stop,
            ),
            StreamEvent::Read(chunk) => if chunk@.len() == 0 {
                (StreamReaderView { stopped: true, ..state }, StreamActionView::Stop)
            } else {
                (
                    StreamReaderView {
                        pending: capped(residue(state.pending + chunk@)),
                        stopped: false,
                    },
                    StreamActionView::Publish(decoded_frames(frames_in(state.pending + chunk@))),
                )
            },
            StreamEvent::ReadFailed => (state, StreamActionView::Backoff(READ_BACKOFF_MILLIS)),
        }
    }
}

/// Every step keeps the pending bytes within the ceiling and free of complete
/// images.
pub proof fn lemma_stream_step_keeps_wf(state: StreamReaderView, event: StreamEvent)
    requires
        state.wf(),
    ensures
        stream_step(state, event).0.wf(),
{
    if let StreamEvent::Read(chunk) = event {
        lemma_residue_is_drained(state.pending + chunk@);
        lemma_first_marker_none(Seq::<u8>::empty(), 0, SOI);
    }
}

/// The read loop of the stream reader, without the reading.
pub struct StreamReader {
    accumulator: ByteAccumulator,
    stopped: bool,
}

impl View for StreamReader {
    type V = StreamReaderView;

    closed spec fn view(&self) -> StreamReaderView {
        StreamReaderView { pending: self.accumulator@, stopped: self.stopped }
    }
}

impl StreamReader {
    /// A reader at the start of its loop, with nothing pending.
    pub fn new() -> (reader: StreamReader)
        ensures
            reader@ == (StreamReaderView { pending: Seq::empty(), stopped: false }),
            reader@.wf(),
    {
        StreamReader { accumulator: ByteAccumulator::new(), stopped: false }
    }

    /// Whether the loop has been left.
    pub fn is_stopped(&self) -> (stopped: bool)
        ensures
            stopped == self@.stopped,
    {
        self.stopped
    }

    /// Number of bytes pending.
    pub fn pending_len(&self) -> (n: usize)
        ensures
            n == self@.pending.len(),
    {
        self.accumulator.len()
    }

    /// Takes one event of the read loop and says what to do next.
    pub fn step(&mut self, event: StreamEvent) -> (action: StreamAction)
        ensures
            (final(self)@, action@) == stream_step(old(self)@, event),
            old(self)@.wf() ==> final(self)@.wf(),
            action matches StreamAction::Publish(frames) ==> forall|i: int|
                0 <= i < frames.len() ==> (#[trigger] frames[i])@.wf(),
    {
        if self.stopped {
            return StreamAction::Stop;
        }
        match event {
            StreamEvent::Shutdown => {
                self.stopped = true;
                StreamAction::Stop
            },
            StreamEvent::Read(chunk) => {
                if chunk.len() == 0 {
                    self.stopped = true;
                    StreamAction::Stop
                } else {
                    let ranges = self.accumulator.feed(chunk);
                    StreamAction::Publish(decode_frames(&ranges))
                }
            },
            StreamEvent::ReadFailed => StreamAction::Backoff(READ_BACKOFF_MILLIS),
        }
    }
}

} // verus!
