//! The decisions of the capture loop.
//!
//! The loop alternates work that only its caller can do (acquiring and
//! smoothing a frame, tracing contours, publishing and showing a result,
//! polling the keyboard) with decisions. The decisions are a state machine:
//! the caller performs the action that a step returns and hands the outcome
//! back as the next event.

use vstd::prelude::*;
use crate::config::Config;
use crate::frame::{Frame, Grid};
use crate::geometry::{all_boxed, outlines, surviving_boxes, BoundingBox, Point};
use crate::pipeline::{
    accepts, lemma_first_frame_detects_nothing, lemma_still_frame_detects_nothing, mask_to_trace,
    MotionPipeline, PipelineState,
};

verus! {

/// The key code that asks the loop to stop: escape.
pub const STOP_KEY: i32 = 27;

/// What the loop is waiting for.
#[derive(Clone, Copy, Debug, PartialEq, Eq, Structural)]
pub enum Phase {
    /// The next smoothed frame.
    AwaitingFrame,
    /// The contours traced on the mask handed out last.
    AwaitingContours,
    /// The key polled after the result was published.
    AwaitingKey,
    /// Nothing: the loop has ended.
    Stopped,
}

/// Why the loop ended.
#[derive(Clone, Copy, Debug, PartialEq, Eq, Structural)]
pub enum StopReason {
    /// The operator asked for it.
    Requested,
    /// The caller could not do its part of the cycle.
    Failure,
    /// A frame did not have the dimensions of the one before it.
    ShapeMismatch,
    /// A contour had no bounding box.
    MalformedContour,
    /// An event arrived that the loop was not waiting for.
    OutOfTurn,
}

/// What the caller reports back.
#[derive(Debug)]
pub enum Event {
    /// A frame was acquired, converted to grayscale and smoothed.
    Frame(Frame),
    /// The contours of the mask were traced.
    Contours(Vec<Vec<Point>>),
    /// The result was published; the key code polled afterwards.
    Key(i32),
    /// The work asked for could not be done.
    Failure,
}

/// What the caller is to do next.
#[derive(Debug)]
pub enum Action {
    /// Acquire the next frame, convert it to grayscale and smooth it.
    Acquire,
    /// Trace the outer contours of the mask.
    Trace(Frame),
    /// Put the result in the store, show it, and poll the keyboard.
    Publish(Vec<BoundingBox>),
    /// End the loop.
    Stop(StopReason),
}

/// The content of an event.
pub enum EventView {
    Frame(Grid),
    Contours(Seq<Seq<Point>>),
    Key(i32),
    Failure,
}

/// The content of an action.
pub enum ActionView {
    Acquire,
    Trace(Grid),
    Publish(Seq<BoundingBox>),
    Stop(StopReason),
}

impl View for Event {
    type V = EventView;

    open spec fn view(&self) -> EventView {
        match *self {
            Event::Frame(f) => EventView::Frame(f@),
            Event::Contours(c) => EventView::Contours(outlines(c@)),
            Event::Key(code) => EventView::Key(code),
            Event::Failure => EventView::Failure,
        }
    }
}

impl View for Action {
    type V = ActionView;

    open spec fn view(&self) -> ActionView {
        match *self {
            Action::Acquire => ActionView::Acquire,
            Action::Trace(mask) => ActionView::Trace(mask@),
            Action::Publish(boxes) => ActionView::Publish(boxes@),
            Action::Stop(reason) => ActionView::Stop(reason),
        }
    }
}

/// The state of the loop.
pub struct LoopState {
    pub phase: Phase,
    pub pipeline: PipelineState,
}

/// The state in which the loop has ended.
pub open spec fn stopped(state: LoopState) -> LoopState {
    LoopState { phase: Phase::Stopped, pipeline: state.pipeline }
}

/// The step of the loop: the state that follows `state` on `event`, and the
/// action that the caller is to take.
///
/// A frame that the pipeline accepts either has a mask to trace, or ends
/// its cycle at once with no detection. Traced contours end the cycle with
/// the boxes that are large enough. After a result was published, the stop
/// key ends the loop and anything else starts the next cycle. A failure ends
/// the loop, and so does an event that the loop was not waiting for.
pub open spec fn next(state: LoopState, event: EventView) -> (LoopState, ActionView) {
    match (state.phase, event) {
        (Phase::Stopped, _) => (stopped(state), ActionView::Stop(StopReason::OutOfTurn)),
        (_, EventView::Failure) => (stopped(state), ActionView::Stop(StopReason::Failure)),
        (Phase::AwaitingFrame, EventView::Frame(current)) => {
            if accepts(state.pipeline, current) {
                let pipeline = PipelineState {
                    config: state.pipeline.config,
                    previous: Some(current),
                };
                match mask_to_trace(state.pipeline, current) {
                    None => (
                        LoopState { phase: Phase::AwaitingKey, pipeline },
                        ActionView::Publish(Seq::empty()),
                    ),
                    Some(mask) => (
                        LoopState { phase: Phase::AwaitingContours, pipeline },
                        ActionView::Trace(mask),
                    ),
                }
            } else {
                (stopped(state), ActionView::Stop(StopReason::ShapeMismatch))
            }
        },
        (Phase::AwaitingContours, EventView::Contours(contours)) => {
            if all_boxed(contours) {
                (
                    LoopState { phase: Phase::AwaitingKey, pipeline: state.pipeline },
                    ActionView::Publish(
                        surviving_boxes(contours, state.pipeline.config.min_doubled_area as int),
                    ),
                )
            } else {
                (stopped(state), ActionView::Stop(StopReason::MalformedContour))
            }
        },
        (Phase::AwaitingKey, EventView::Key(code)) => {
            if code == STOP_KEY {
                (stopped(state), ActionView::Stop(StopReason::Requested))
            } else {
                (
                    LoopState { phase: Phase::AwaitingFrame, pipeline: state.pipeline },
                    ActionView::Acquire,
                )
            }
        },
        _ => (stopped(state), ActionView::Stop(StopReason::OutOfTurn)),
    }
}

/// The capture loop: its pipeline and what it is waiting for.
#[derive(Debug)]
pub struct CaptureLoop {
    phase: Phase,
    pipeline: MotionPipeline,
}

impl View for CaptureLoop {
    type V = LoopState;

    closed spec fn view(&self) -> LoopState {
        LoopState { phase: self.phase, pipeline: self.pipeline@ }
    }
}

impl CaptureLoop {
    /// A loop that waits for its first frame; `None` when the settings are
    /// not usable.
    pub fn new(config: Config) -> (r: Option<CaptureLoop>)
        ensures
            r is Some <==> config.valid(),
            r is Some ==> r->0@ == (LoopState {
                phase: Phase::AwaitingFrame,
                pipeline: PipelineState { config, previous: None },
            }),
    {
        match MotionPipeline::new(config) {
            Some(pipeline) => Some(CaptureLoop { phase: Phase::AwaitingFrame, pipeline }),
            None => None,
        }
    }

    /// What the loop is waiting for.
    pub fn phase(&self) -> (p: Phase)
        ensures
            p == self@.phase,
    {
        self.phase
    }

    /// The settings of the loop.
    pub fn config(&self) -> (c: Config)
        ensures
            c == self@.pipeline.config,
    {
        self.pipeline.config()
    }

    /// Takes an event and returns the action that follows it.
    pub fn step(&mut self, event: Event) -> (action: Action)
        ensures
            (final(self)@, action@) == next(old(self)@, event@),
    {
        let action = match self.phase {
            Phase::Stopped => Action::Stop(StopReason::OutOfTurn),
            Phase::AwaitingFrame => match event {
                Event::Failure => Action::Stop(StopReason::Failure),
                Event::Frame(current) => match self.pipeline.advance(current) {
                    Err(_) => Action::Stop(StopReason::ShapeMismatch),
                    Ok(None) => Action::Publish(Vec::new()),
                    Ok(Some(mask)) => Action::Trace(mask),
                },
                _ => Action::Stop(StopReason::OutOfTurn),
            },
            Phase::AwaitingContours => match event {
                Event::Failure => Action::Stop(StopReason::Failure),
                Event::Contours(contours) => match self.pipeline.boxes(&contours) {
                    Err(_) => Action::Stop(StopReason::MalformedContour),
                    Ok(boxes) => Action::Publish(boxes),
                },
                _ => Action::Stop(StopReason::OutOfTurn),
            },
            Phase::AwaitingKey => match event {
                Event::Failure => Action::Stop(StopReason::Failure),
                Event::Key(code) => if code == STOP_KEY {
                    Action::Stop(StopReason::Requested)
                } else {
                    Action::Acquire
                },
                _ => Action::Stop(StopReason::OutOfTurn),
            },
        };
        self.phase = match &action {
            Action::Acquire => Phase::AwaitingFrame,
            Action::Trace(_) => Phase::AwaitingContours,
            Action::Publish(_) => Phase::AwaitingKey,
            Action::Stop(_) => Phase::Stopped,
        };
        action
    }
}

/// The first frame of a run ends its cycle with no detection, whatever it
/// shows.
pub proof fn lemma_first_cycle_publishes_nothing(state: LoopState, current: Grid)
    requires
        state.phase == Phase::AwaitingFrame,
        state.pipeline.previous is None,
    ensures
        next(state, EventView::Frame(current)).1 == ActionView::Publish(Seq::empty()),
{
    lemma_first_frame_detects_nothing(state.pipeline, current, Seq::empty());
}

/// A frame equal to the one before it ends its cycle with no detection,
/// provided the threshold does not let zero samples through or the frame has
/// no pixel.
pub proof fn lemma_still_cycle_publishes_nothing(state: LoopState, current: Grid)
    requires
        current.wf(),
        state.phase == Phase::AwaitingFrame,
        state.pipeline.config.valid(),
        state.pipeline.config.quiet_on_still() || current.samples.len() == 0,
        state.pipeline.previous == Some(current),
    ensures
        next(state, EventView::Frame(current)).1 == ActionView::Publish(Seq::empty()),
{
    lemma_still_frame_detects_nothing(state.pipeline, current, Seq::empty());
}

} // verus!
