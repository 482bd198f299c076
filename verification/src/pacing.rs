//! Pacing-loop control: the decisions of the real-time driver that pulls
//! frames, pushes them through readback and encoding, and forwards packets
//! to the sink.
//!
//! The loop itself runs outside (it waits on the frame queue, the tick and
//! the sink); this state machine decides, per event, whether to go on and
//! when to stop: on the frame-count limit, on end of stream, or on the first
//! fault from any stage, which is fatal to the session.

use vstd::prelude::*;

use crate::Fault;

verus! {

/// Why the pacing loop stopped.
#[derive(Clone, Copy, PartialEq, Eq, Structural, Debug)]
pub enum StopReason {
    /// The configured frame-count limit was reached.
    LimitReached,
    /// The frame source ended: the capture session closed its queue.
    SourceEnded,
    /// A stage failed; the fault is fatal to the session.
    Failed(Fault),
}

/// Control state of the pacing loop.
#[derive(Clone, Copy, PartialEq, Eq, Structural, Debug)]
pub enum LoopState {
    Running,
    Stopped(StopReason),
}

/// One step of the orderly shutdown the loop performs once stopped.
#[derive(Clone, Copy, PartialEq, Eq, Structural, Debug)]
pub enum ShutdownStep {
    /// Close the capture session.
    CloseCapture,
    /// Flush buffered output to the sink.
    FlushSink,
}

/// The pacing loop's control state: how many frames were processed, how
/// many packets the sink accepted, and whether the loop still runs.
pub struct PacingLoop {
    limit: u64,
    processed: u64,
    forwarded: u64,
    state: LoopState,
}

impl PacingLoop {
    /// The frame-count limit this run stops at.
    pub closed spec fn limit(&self) -> u64 {
        self.limit
    }

    /// Frames pulled and pushed through readback and encoding so far.
    pub closed spec fn processed(&self) -> u64 {
        self.processed
    }

    /// Packets the sink has accepted, in submission order.
    pub closed spec fn forwarded(&self) -> u64 {
        self.forwarded
    }

    /// Control state.
    pub closed spec fn state(&self) -> LoopState {
        self.state
    }

    /// Counters never pass the limit while the loop runs.
    pub closed spec fn wf(&self) -> bool {
        &&& self.processed <= self.limit
        &&& self.forwarded <= self.processed
        &&& self.state == LoopState::Running ==> self.processed < self.limit
    }

    /// A fresh loop that stops after `limit` frames.
    pub fn new(limit: u64) -> (r: Self)
        requires
            limit > 0,
        ensures
            r.wf(),
            r.limit() == limit,
            r.processed() == 0,
            r.forwarded() == 0,
            r.state() == LoopState::Running,
    {
        PacingLoop { limit, processed: 0, forwarded: 0, state: LoopState::Running }
    }

    /// Whether the loop still pulls frames.
    pub fn running(&self) -> (r: bool)
        ensures
            r == (self.state() == LoopState::Running),
    {
        match self.state {
            LoopState::Running => true,
            LoopState::Stopped(_) => false,
        }
    }

    /// Frames processed so far.
    pub fn processed_frames(&self) -> (r: u64)
        ensures
            r == self.processed(),
    {
        self.processed
    }

    /// Packets the sink has accepted so far.
    pub fn forwarded_packets(&self) -> (r: u64)
        ensures
            r == self.forwarded(),
    {
        self.forwarded
    }

    /// Why the loop stopped, while it is stopped.
    pub fn stop_reason(&self) -> (r: Option<StopReason>)
        ensures
            r == (match self.state() {
                LoopState::Running => Option::<StopReason>::None,
                LoopState::Stopped(reason) => Some(reason),
            }),
    {
        match self.state {
            LoopState::Running => None,
            LoopState::Stopped(reason) => Some(reason),
        }
    }

    /// The frame source yielded no further frame: the loop stops.
    pub fn on_source_ended(&mut self)
        requires
            old(self).wf(),
        ensures
            final(self).wf(),
            final(self).state() == LoopState::Stopped(StopReason::SourceEnded),
            final(self).processed() == old(self).processed(),
            final(self).forwarded() == old(self).forwarded(),
            final(self).limit() == old(self).limit(),
    {
        self.state = LoopState::Stopped(StopReason::SourceEnded);
    }

    /// A stage failed while handling the current frame: fatal, the loop
    /// stops at once.
    pub fn on_fault(&mut self, fault: Fault)
        requires
            old(self).wf(),
        ensures
            final(self).wf(),
            final(self).state() == LoopState::Stopped(StopReason::Failed(fault)),
            final(self).processed() == old(self).processed(),
            final(self).forwarded() == old(self).forwarded(),
            final(self).limit() == old(self).limit(),
    {
        self.state = LoopState::Stopped(StopReason::Failed(fault));
    }

    /// The sink's verdict on one delivery. Success counts the packet and
    /// the frame; a full round up to the limit stops the loop. A sink
    /// failure is fatal for the session: the packet does not count and the
    /// loop stops.
    pub fn on_sink_result(&mut self, ok: bool)
        requires
            old(self).wf(),
            old(self).state() == LoopState::Running,
        ensures
            final(self).wf(),
            final(self).limit() == old(self).limit(),
            ok ==> {
                &&& final(self).forwarded() == old(self).forwarded() + 1
                &&& final(self).processed() == old(self).processed() + 1
                &&& final(self).state() == (if old(self).processed() + 1 == old(self).limit() {
                    LoopState::Stopped(StopReason::LimitReached)
                } else {
                    LoopState::Running
                })
            },
            !ok ==> {
                &&& final(self).forwarded() == old(self).forwarded()
                &&& final(self).processed() == old(self).processed()
                &&& final(self).state() == LoopState::Stopped(StopReason::Failed(Fault::Sink))
            },
    {
        if ok {
            self.forwarded = self.forwarded + 1;
            self.processed = self.processed + 1;
            if self.processed == self.limit {
                self.state = LoopState::Stopped(StopReason::LimitReached);
            }
        } else {
            self.state = LoopState::Stopped(StopReason::Failed(Fault::Sink));
        }
    }

    /// The orderly shutdown once the loop has stopped: close the capture
    /// session, then flush the sink, in that order.
    pub fn shutdown_steps(&self) -> (r: Vec<ShutdownStep>)
        requires
            self.state() != LoopState::Running,
        ensures
            r@ =~= seq![ShutdownStep::CloseCapture, ShutdownStep::FlushSink],
    {
        let mut steps: Vec<ShutdownStep> = Vec::new();
        steps.push(ShutdownStep::CloseCapture);
        steps.push(ShutdownStep::FlushSink);
        steps
    }
}

} // verus!
