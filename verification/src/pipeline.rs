//! The motion pipeline: from two consecutive smoothed frames to the mask of
//! what changed, and from the contours traced on that mask to the bounding
//! boxes of the regions that moved.

use vstd::prelude::*;
use crate::config::Config;
use crate::filters::{
    abs_diff, binarized, difference, dilate, dilation, lemma_binarized_keeps_blank,
    lemma_difference_with_self_is_blank, lemma_dilation_keeps_blank, threshold,
};
use crate::frame::{Frame, Grid};
use crate::geometry::{
    all_boxed, lemma_filtering_is_monotonic, outlines, select_boxes, surviving_boxes, BoundingBox,
    Point,
};

verus! {

/// Why a cycle of the pipeline failed.
#[derive(Clone, Copy, Debug, PartialEq, Eq, Structural)]
pub enum PipelineError {
    /// The frame does not have the dimensions of the one before it.
    ShapeMismatch,
    /// A contour has no point, or its extent does not fit the coordinate
    /// type.
    MalformedContour,
}

/// What the pipeline remembers between cycles.
pub struct PipelineState {
    pub config: Config,
    pub previous: Option<Grid>,
}

/// The mask of what changed between two smoothed frames: their difference,
/// dilated and put through the binary threshold.
pub open spec fn change_mask(previous: Grid, current: Grid, config: Config) -> Grid {
    binarized(
        dilation(
            difference(previous, current),
            config.kernel_rows as int,
            config.kernel_cols as int,
        ),
        config.threshold.thresh,
        config.threshold.maxval,
    )
}

/// Whether the pipeline takes `current` as its next frame: it is the first
/// frame, or it has the dimensions of the frame before it.
pub open spec fn accepts(state: PipelineState, current: Grid) -> bool {
    match state.previous {
        None => true,
        Some(previous) => previous.same_shape(current),
    }
}

/// The mask on which contours are to be traced in the cycle that takes
/// `current`: none in the first cycle, which has no frame to compare with,
/// and none when the mask has no foreground.
pub open spec fn mask_to_trace(state: PipelineState, current: Grid) -> Option<Grid> {
    match state.previous {
        None => None,
        Some(previous) => {
            let mask = change_mask(previous, current, state.config);
            if mask.is_blank() {
                None
            } else {
                Some(mask)
            }
        },
    }
}

/// The detections of the cycle that takes `current`: none while there is no
/// mask to trace; else the boxes of the contours, traced on the mask, that
/// are large enough.
pub open spec fn detections(
    state: PipelineState,
    current: Grid,
    contours: Seq<Seq<Point>>,
) -> Seq<BoundingBox> {
    if mask_to_trace(state, current) is None {
        Seq::empty()
    } else {
        surviving_boxes(contours, state.config.min_doubled_area as int)
    }
}

/// The grid of an optional frame.
pub open spec fn grid_of(frame: Option<Frame>) -> Option<Grid> {
    match frame {
        None => None,
        Some(f) => Some(f@),
    }
}

/// The motion pipeline: its settings and the smoothed frame of the cycle
/// before.
#[derive(Debug)]
pub struct MotionPipeline {
    config: Config,
    previous: Option<Frame>,
}

impl View for MotionPipeline {
    type V = PipelineState;

    closed spec fn view(&self) -> PipelineState {
        PipelineState { config: self.config, previous: grid_of(self.previous) }
    }
}

impl MotionPipeline {
    /// A pipeline only ever holds usable settings.
    #[verifier::type_invariant]
    pub open spec fn inv(&self) -> bool {
        self@.config.valid()
    }

    /// A pipeline that has seen no frame; `None` when the settings are not
    /// usable.
    pub fn new(config: Config) -> (r: Option<MotionPipeline>)
        ensures
            r is Some <==> config.valid(),
            r is Some ==> r->0@ == (PipelineState { config, previous: None }),
    {
        if config.is_valid() {
            Some(MotionPipeline { config, previous: None })
        } else {
            None
        }
    }

    /// The settings of the pipeline.
    pub fn config(&self) -> (c: Config)
        ensures
            c == self@.config,
            c.valid(),
    {
        proof {
            use_type_invariant(self);
        }
        self.config
    }

    /// Whether the pipeline holds a frame to compare the next one with.
    pub fn has_previous(&self) -> (b: bool)
        ensures
            b == self@.previous is Some,
    {
        self.previous.is_some()
    }

    /// Takes the smoothed grayscale frame of a new cycle and returns the
    /// mask on which contours are to be traced, if there is one. The frame
    /// becomes the one to compare the next frame with. A frame of other
    /// dimensions than the one before is refused and leaves the pipeline as
    /// it was.
    pub fn advance(&mut self, processed: Frame) -> (r: Result<Option<Frame>, PipelineError>)
        ensures
            r is Ok <==> accepts(old(self)@, processed@),
            r is Ok ==> grid_of(r->Ok_0) == mask_to_trace(old(self)@, processed@),
            r is Ok ==> final(self)@ == (PipelineState {
                config: old(self)@.config,
                previous: Some(processed@),
            }),
            r is Err ==> r->Err_0 == PipelineError::ShapeMismatch,
            r is Err ==> final(self)@ == old(self)@,
    {
        proof {
            use_type_invariant(&*self);
        }
        let mask = match &self.previous {
            None => None,
            Some(previous) => {
                match abs_diff(previous, &processed) {
                    None => {
                        return Err(PipelineError::ShapeMismatch);
                    },
                    Some(diff) => {
                        let grown = dilate(
                            &diff,
                            self.config.kernel_rows as usize,
                            self.config.kernel_cols as usize,
                        );
                        let mask = threshold(
                            &grown.unwrap(),
                            self.config.threshold.thresh,
                            self.config.threshold.maxval,
                        );
                        if mask.is_blank() {
                            None
                        } else {
                            Some(mask)
                        }
                    },
                }
            },
        };
        self.previous = Some(processed);
        Ok(mask)
    }

    /// Returns the bounding boxes of the contours that are large enough, in
    /// the order of the contours. Fails when some contour has no bounding
    /// box.
    pub fn boxes(&self, contours: &Vec<Vec<Point>>) -> (r: Result<Vec<BoundingBox>, PipelineError>)
        ensures
            r is Ok <==> all_boxed(outlines(contours@)),
            r is Ok ==> r->Ok_0@ == surviving_boxes(
                outlines(contours@),
                self@.config.min_doubled_area as int,
            ),
            r is Err ==> r->Err_0 == PipelineError::MalformedContour,
    {
        match select_boxes(contours, self.config.min_doubled_area) {
            Some(boxes) => Ok(boxes),
            None => Err(PipelineError::MalformedContour),
        }
    }
}

/// The first frame of a run yields no detection, whatever it shows.
pub proof fn lemma_first_frame_detects_nothing(
    state: PipelineState,
    current: Grid,
    contours: Seq<Seq<Point>>,
)
    requires
        state.previous is None,
    ensures
        mask_to_trace(state, current) is None,
        detections(state, current, contours) == Seq::<BoundingBox>::empty(),
{
}

/// A frame equal to the one before it yields no detection, provided the
/// threshold does not let zero samples through or the frame has no pixel.
pub proof fn lemma_still_frame_detects_nothing(
    state: PipelineState,
    current: Grid,
    contours: Seq<Seq<Point>>,
)
    requires
        current.wf(),
        state.config.valid(),
        state.config.quiet_on_still() || current.samples.len() == 0,
        state.previous == Some(current),
    ensures
        change_mask(current, current, state.config).is_blank(),
        mask_to_trace(state, current) is None,
        detections(state, current, contours) == Seq::<BoundingBox>::empty(),
{
    let config = state.config;
    let diff = difference(current, current);
    if config.quiet_on_still() {
        lemma_difference_with_self_is_blank(current);
        lemma_dilation_keeps_blank(diff, config.kernel_rows as int, config.kernel_cols as int);
        lemma_binarized_keeps_blank(
            dilation(diff, config.kernel_rows as int, config.kernel_cols as int),
            config.threshold.thresh,
            config.threshold.maxval,
        );
    }
}

/// Raising the minimum area, with the other settings and the input fixed,
/// only removes detections.
pub proof fn lemma_detections_shrink_with_min_area(
    lower: PipelineState,
    higher: PipelineState,
    current: Grid,
    contours: Seq<Seq<Point>>,
)
    requires
        lower.previous == higher.previous,
        lower.config.kernel_rows == higher.config.kernel_rows,
        lower.config.kernel_cols == higher.config.kernel_cols,
        lower.config.threshold == higher.config.threshold,
        lower.config.min_doubled_area <= higher.config.min_doubled_area,
    ensures
        detections(higher, current, contours).len() <= detections(lower, current, contours).len(),
        forall|b: BoundingBox|
            detections(higher, current, contours).contains(b) ==> detections(
                lower,
                current,
                contours,
            ).contains(b),
{
    lemma_filtering_is_monotonic(
        contours,
        lower.config.min_doubled_area as int,
        higher.config.min_doubled_area as int,
    );
    if lower.previous is Some {
        assert(change_mask(lower.previous->0, current, lower.config) == change_mask(
            higher.previous->0,
            current,
            higher.config,
        ));
    }
}

} // verus!
