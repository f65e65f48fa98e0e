//! What holds of the three loops together.

use crate::display::{display_poll, display_rendered, DisplayAction};
use crate::stream::{stream_step, StreamActionView, StreamEvent, StreamReaderView};
use vstd::prelude::*;

verus! {

/// The shutdown signals end both loops at their next poll, whatever they
/// were doing: the stream reader stops on the signal without reading again,
/// and the display stops without rendering again.
pub proof fn lemma_shutdown_ends_both_loops(
    reader: StreamReaderView,
    display_stopped: bool,
    surface_open: bool,
    quit_requested: bool,
)
    ensures
        stream_step(reader, StreamEvent::Shutdown).0.stopped,
        stream_step(reader, StreamEvent::Shutdown).0.pending == reader.pending,
        stream_step(reader, StreamEvent::Shutdown).1 == StreamActionView::Stop,
        display_poll(display_stopped, surface_open, quit_requested, true) == (
            true,
            DisplayAction::Stop,
        ),
{
}

/// A loop that has ended does not start again: a stopped stream reader
/// answers every event with a stop and keeps its state, and a stopped
/// display answers every poll and every rendering with a stop.
pub proof fn lemma_ended_loops_stay_ended(
    reader: StreamReaderView,
    event: StreamEvent,
    surface_open: bool,
    quit_requested: bool,
    shutdown: bool,
    presented: bool,
)
    requires
        reader.stopped,
    ensures
        stream_step(reader, event) == (reader, StreamActionView::Stop),
        display_poll(true, surface_open, quit_requested, shutdown) == (true, DisplayAction::Stop),
        display_rendered(true, presented) == (true, DisplayAction::Stop),
{
}

} // verus!
