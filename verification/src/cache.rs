//! The single-slot cache that holds the most recently decoded frame.
//!
//! One producer and two consumers share the cache behind a lock that the
//! caller owns. Each operation takes what its attempt to acquire that lock
//! gave: the producer and the display never wait, so they may come with
//! nothing; the sampler waits, so it always comes with the cache.

use crate::frame::{Frame, FrameView};
use vstd::prelude::*;

verus! {

/// Holds at most one frame: the newest one that was published.
pub struct FrameCache {
    slot: Option<Frame>,
}

impl View for FrameCache {
    type V = Option<FrameView>;

    closed spec fn view(&self) -> Option<FrameView> {
        match self.slot {
            Some(frame) => Some(frame@),
            None => None,
        }
    }
}

/// What a reader was handed, taken by its view.
pub open spec fn seen_view(seen: Option<Frame>) -> Option<FrameView> {
    match seen {
        Some(frame) => Some(frame@),
        None => None,
    }
}

/// What a reader may ever be handed: nothing, or one complete raster.
pub open spec fn empty_or_whole(seen: Option<FrameView>) -> bool {
    match seen {
        Some(frame) => frame.wf(),
        None => true,
    }
}

/// What the cache holds after a run of the producer's attempts, each with
/// whether the cache was in hand and the frame that was offered: the frame of
/// the last attempt that had the cache in hand, or what it held before where
/// there was none.
pub open spec fn cache_after(held: Option<FrameView>, attempts: Seq<(bool, FrameView)>) -> Option<
    FrameView,
>
    decreases attempts.len(),
{
    if attempts.len() == 0 {
        held
    } else {
        let before = cache_after(held, attempts.drop_last());
        if attempts.last().0 {
            Some(attempts.last().1)
        } else {
            before
        }
    }
}

/// A reader never sees a frame in the making: whatever was offered to a new
/// cache, and whichever attempts had it in hand, the cache holds nothing, or
/// one complete frame, namely the one of the last attempt that had the cache
/// in hand. A frame that was dropped leaves no trace.
pub proof fn lemma_cache_holds_nothing_or_the_newest_frame(attempts: Seq<(bool, FrameView)>)
    requires
        forall|i: int| 0 <= i < attempts.len() ==> (#[trigger] attempts[i]).1.wf(),
    ensures
        empty_or_whole(cache_after(None, attempts)),
        match cache_after(None, attempts) {
            Some(frame) => exists|i: int|
                0 <= i < attempts.len() && #[trigger] attempts[i] == (true, frame) && forall|j: int|
                    i < j < attempts.len() ==> !(#[trigger] attempts[j]).0,
            None => forall|i: int| 0 <= i < attempts.len() ==> !(#[trigger] attempts[i]).0,
        },
    decreases attempts.len(),
{
    if attempts.len() > 0 {
        let earlier = attempts.drop_last();
        let last = attempts.len() - 1;
        assert forall|i: int| 0 <= i < earlier.len() implies (#[trigger] earlier[i]).1.wf() by {
            assert(earlier[i] == attempts[i]);
        }
        lemma_cache_holds_nothing_or_the_newest_frame(earlier);
        if attempts.last().0 {
            assert(attempts[last] == (true, attempts.last().1));
        } else {
            match cache_after(None, earlier) {
                Some(frame) => {
                    let i = choose|i: int|
                        0 <= i < earlier.len() && #[trigger] earlier[i] == (true, frame) && forall|
                            j: int,
                        |
                            i < j < earlier.len() ==> !(#[trigger] earlier[j]).0;
                    assert(attempts[i] == earlier[i]);
                    assert forall|j: int| i < j < attempts.len() implies !(
                    #[trigger] attempts[j]).0 by {
                        if j < last {
                            assert(attempts[j] == earlier[j]);
                        }
                    }
                },
                None => {
                    assert forall|i: int| 0 <= i < attempts.len() implies !(
                    #[trigger] attempts[i]).0 by {
                        if i < last {
                            assert(attempts[i] == earlier[i]);
                        }
                    }
                },
            }
        }
    }
}

impl FrameCache {
    /// An empty cache.
    pub fn new() -> (cache: FrameCache)
        ensures
            cache@ is None,
    {
        FrameCache { slot: None }
    }

    /// The producer's write. With the cache in hand the new frame replaces
    /// whatever was held. Without it the frame is dropped: nothing is queued
    /// and nothing is retried.
    pub fn publish(access: Option<&mut FrameCache>, frame: Frame) -> (stored: bool)
        ensures
            stored == access.is_some(),
            access matches Some(cache) ==> final(cache)@ == Some(frame@),
    {
        match access {
            Some(cache) => {
                cache.slot = Some(frame);
                true
            },
            None => false,
        }
    }

    /// The display's read. With the cache in hand it gets a copy of the held
    /// frame, if there is one. Without it, it gets nothing and does not wait.
    pub fn peek_for_display(access: Option<&FrameCache>) -> (seen: Option<Frame>)
        ensures
            seen_view(seen) == match access {
                Some(cache) => cache@,
                None => None,
            },
            empty_or_whole(seen_view(seen)),
    {
        match access {
            Some(cache) => cache.read_for_sample(),
            None => None,
        }
    }

    /// The sampler's read, made once the lock has been waited for: a copy of
    /// the held frame, or nothing while no frame has been published.
    pub fn read_for_sample(&self) -> (seen: Option<Frame>)
        ensures
            seen_view(seen) == self@,
            empty_or_whole(seen_view(seen)),
    {
        match &self.slot {
            Some(frame) => Some(frame.clone()),
            None => None,
        }
    }
}

} // verus!
