//! Capture-session lifecycle and the frame-ready queue.
//!
//! The session bridges the compositor's callback thread to the pulling
//! consumer through a bounded queue of capacity one. Under backpressure the
//! newest frame is dropped rather than stalling the callback thread. After
//! `close` no further frame is acquired.

use vstd::prelude::*;

use crate::staging::RawFrame;
use crate::Fault;

verus! {

/// Lifecycle states of a capture session.
#[derive(Clone, Copy, PartialEq, Eq, Structural, Debug)]
pub enum CaptureState {
    Idle,
    Capturing,
    Closed,
}

/// One per-monitor capture session: the compositor subscription and the
/// bounded frame queue.
pub struct CaptureSession {
    state: CaptureState,
    queue: Option<RawFrame>,
    dropped: u64,
}

impl CaptureSession {
    /// State of the session.
    pub closed spec fn state(&self) -> CaptureState {
        self.state
    }

    /// The queued frame, if one waits: the queue's capacity is one.
    pub closed spec fn queued(&self) -> Option<RawFrame> {
        self.queue
    }

    /// Frames dropped because the queue was full when they arrived.
    pub closed spec fn dropped(&self) -> u64 {
        self.dropped
    }

    /// A frame can only wait while the session captures.
    pub closed spec fn wf(&self) -> bool {
        self.state != CaptureState::Capturing ==> self.queue is None
    }

    /// State of the session, as a value.
    pub fn current_state(&self) -> (r: CaptureState)
        ensures
            r == self.state(),
    {
        self.state
    }

    /// Frames dropped under backpressure, as a count.
    pub fn dropped_frames(&self) -> (r: u64)
        ensures
            r == self.dropped(),
    {
        self.dropped
    }

    /// A fresh session, not yet capturing.
    pub fn new() -> (r: Self)
        ensures
            r.wf(),
            r.state() == CaptureState::Idle,
            r.queued() is None,
            r.dropped() == 0,
    {
        CaptureSession { state: CaptureState::Idle, queue: None, dropped: 0 }
    }

    /// Arms the frame-ready notification and begins capturing. Valid only
    /// once, from `Idle`; anywhere else the capture fault is fatal to the
    /// session.
    pub fn start_capture(&mut self) -> (r: Result<(), Fault>)
        ensures
            r is Ok <==> old(self).state() == CaptureState::Idle,
            r is Ok ==> final(self).state() == CaptureState::Capturing,
            r matches Err(f) ==> f == Fault::Capture && *final(self) == *old(self),
            final(self).queued() == old(self).queued(),
            final(self).dropped() == old(self).dropped(),
            old(self).wf() ==> final(self).wf(),
    {
        match self.state {
            CaptureState::Idle => {
                self.state = CaptureState::Capturing;
                Ok(())
            },
            _ => Err(Fault::Capture),
        }
    }

    /// The compositor callback's non-blocking enqueue attempt. While
    /// capturing, an empty queue takes the frame; a full queue drops the
    /// newcomer and counts it. Outside `Capturing` the frame is ignored.
    pub fn offer_frame(&mut self, frame: RawFrame) -> (accepted: bool)
        requires
            old(self).dropped() < u64::MAX,
        ensures
            accepted == (old(self).state() == CaptureState::Capturing && old(self).queued()
                is None),
            final(self).state() == old(self).state(),
            accepted ==> final(self).queued() == Some(frame) && final(self).dropped() == old(
                self,
            ).dropped(),
            !accepted ==> final(self).queued() == old(self).queued(),
            !accepted && old(self).state() == CaptureState::Capturing ==> final(self).dropped()
                == old(self).dropped() + 1,
            !accepted && old(self).state() != CaptureState::Capturing ==> final(self).dropped()
                == old(self).dropped(),
            old(self).wf() ==> final(self).wf(),
    {
        match self.state {
            CaptureState::Capturing => {
                if self.queue.is_none() {
                    self.queue = Some(frame);
                    true
                } else {
                    self.dropped = self.dropped + 1;
                    false
                }
            },
            _ => false,
        }
    }

    /// The consumer's pull: takes the waiting frame, if any. After `close`
    /// it yields no further frames.
    pub fn next_frame(&mut self) -> (r: Option<RawFrame>)
        requires
            old(self).wf(),
        ensures
            r == old(self).queued(),
            old(self).state() != CaptureState::Capturing ==> r is None,
            final(self).queued() is None,
            final(self).state() == old(self).state(),
            final(self).dropped() == old(self).dropped(),
            old(self).wf() ==> final(self).wf(),
    {
        self.queue.take()
    }

    /// Tears down the subscription: terminal state, the queue is emptied
    /// and no frame is acquired afterwards.
    pub fn close(&mut self)
        ensures
            final(self).state() == CaptureState::Closed,
            final(self).queued() is None,
            final(self).dropped() == old(self).dropped(),
            final(self).wf(),
    {
        self.state = CaptureState::Closed;
        self.queue = None;
    }
}

} // verus!
