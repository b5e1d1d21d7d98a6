use motion_detector::config::{Config, Threshold};
use motion_detector::frame::Frame;
use motion_detector::geometry::{BoundingBox, Point};
use motion_detector::pipeline::{MotionPipeline, PipelineError};

fn settings(rows: i32, cols: i32, min_doubled_area: u64) -> Config {
    Config {
        kernel_rows: rows,
        kernel_cols: cols,
        threshold: Threshold { thresh: 20, maxval: 255 },
        min_doubled_area,
    }
}

fn with_square(size: usize, x0: usize, y0: usize, side: usize, value: u8) -> Frame {
    let mut samples = vec![0u8; size * size];
    for y in y0..y0 + side {
        for x in x0..x0 + side {
            samples[y * size + x] = value;
        }
    }
    Frame::new(size, size, samples).unwrap()
}

/// Stands in for the contour tracer on a mask whose foreground is one solid
/// rectangle: the four corners, as a tracer that drops collinear points
/// reports them.
fn trace_rectangle(mask: &Frame) -> Vec<Vec<Point>> {
    let (mut x0, mut y0, mut x1, mut y1) = (usize::MAX, usize::MAX, 0usize, 0usize);
    for y in 0..mask.height() {
        for x in 0..mask.width() {
            if mask.get(x, y) != Some(0) {
                x0 = x0.min(x);
                y0 = y0.min(y);
                x1 = x1.max(x);
                y1 = y1.max(y);
            }
        }
    }
    for y in 0..mask.height() {
        for x in 0..mask.width() {
            let inside = x0 <= x && x <= x1 && y0 <= y && y <= y1;
            assert_eq!(mask.get(x, y) != Some(0), inside);
        }
    }
    let p = |x: usize, y: usize| Point { x: x as i32, y: y as i32 };
    vec![vec![p(x0, y0), p(x0, y1), p(x1, y1), p(x1, y0)]]
}

#[test]
fn new_refuses_unusable_settings() {
    assert!(MotionPipeline::new(settings(0, 35, 0)).is_none());
    assert!(MotionPipeline::new(settings(35, -1, 0)).is_none());
    let pipeline = MotionPipeline::new(Config::new()).expect("the built-in settings are usable");
    assert_eq!(pipeline.config(), Config::new());
    assert!(!pipeline.has_previous());
}

#[test]
fn the_first_frame_has_no_mask() {
    let mut pipeline = MotionPipeline::new(Config::new()).unwrap();
    let busy = with_square(32, 4, 4, 20, 255);
    assert!(matches!(pipeline.advance(busy), Ok(None)));
    assert!(pipeline.has_previous());
}

#[test]
fn identical_solid_frames_yield_nothing_both_times() {
    let mut pipeline = MotionPipeline::new(Config::new()).unwrap();
    let first = Frame::filled(64, 64, 128).unwrap();
    let second = Frame::filled(64, 64, 128).unwrap();
    assert!(matches!(pipeline.advance(first), Ok(None)));
    assert!(matches!(pipeline.advance(second), Ok(None)));
}

#[test]
fn identical_busy_frames_yield_nothing() {
    let mut pipeline = MotionPipeline::new(settings(3, 3, 0)).unwrap();
    let samples: Vec<u8> = (0..40 * 30).map(|i| ((i * 73 + 5) % 256) as u8).collect();
    let first = Frame::new(40, 30, samples.clone()).unwrap();
    let second = Frame::new(40, 30, samples).unwrap();
    assert!(matches!(pipeline.advance(first), Ok(None)));
    assert!(matches!(pipeline.advance(second), Ok(None)));
}

#[test]
fn a_white_square_on_black_without_growth() {
    let mut pipeline = MotionPipeline::new(settings(1, 1, 20)).unwrap();
    assert!(matches!(pipeline.advance(Frame::filled(100, 100, 0).unwrap()), Ok(None)));
    let mask = pipeline
        .advance(with_square(100, 10, 10, 50, 255))
        .expect("same dimensions")
        .expect("something changed");
    assert_eq!(mask.samples(), with_square(100, 10, 10, 50, 255).samples());
    let boxes = pipeline.boxes(&trace_rectangle(&mask)).unwrap();
    assert_eq!(boxes, vec![BoundingBox { x: 10, y: 10, width: 50, height: 50 }]);
}

#[test]
fn a_white_square_on_black_grows_by_the_window() {
    let mut config = Config::new();
    config.min_doubled_area = 20;
    let mut pipeline = MotionPipeline::new(config).unwrap();
    assert!(matches!(pipeline.advance(Frame::filled(100, 100, 0).unwrap()), Ok(None)));
    let mask = pipeline
        .advance(with_square(100, 10, 10, 50, 255))
        .expect("same dimensions")
        .expect("something changed");
    // A window of 35 reaches 17 pixels to each side; the frame cuts it off.
    assert_eq!(mask.samples(), with_square(100, 0, 0, 77, 255).samples());
    let boxes = pipeline.boxes(&trace_rectangle(&mask)).unwrap();
    assert_eq!(boxes, vec![BoundingBox { x: 0, y: 0, width: 77, height: 77 }]);
}

#[test]
fn the_mask_compares_with_the_frame_before_only() {
    let mut pipeline = MotionPipeline::new(settings(1, 1, 0)).unwrap();
    assert!(matches!(pipeline.advance(Frame::filled(8, 8, 0).unwrap()), Ok(None)));
    let moved = pipeline.advance(with_square(8, 1, 1, 2, 200)).unwrap().unwrap();
    assert_eq!(moved.samples(), with_square(8, 1, 1, 2, 255).samples());
    // The same frame again: nothing changed since the last cycle.
    assert!(matches!(pipeline.advance(with_square(8, 1, 1, 2, 200)), Ok(None)));
    // Back to black: the square is what changed.
    let back = pipeline.advance(Frame::filled(8, 8, 0).unwrap()).unwrap().unwrap();
    assert_eq!(back.samples(), with_square(8, 1, 1, 2, 255).samples());
}

#[test]
fn a_change_below_the_threshold_yields_nothing() {
    let mut pipeline = MotionPipeline::new(settings(3, 3, 0)).unwrap();
    assert!(matches!(pipeline.advance(Frame::filled(8, 8, 100).unwrap()), Ok(None)));
    let mut nearly = vec![100u8; 64];
    nearly[9] = 119;
    nearly[10] = 81;
    assert!(matches!(pipeline.advance(Frame::new(8, 8, nearly).unwrap()), Ok(None)));
    // A difference of exactly the threshold counts.
    let mut pipeline = MotionPipeline::new(settings(1, 1, 0)).unwrap();
    assert!(matches!(pipeline.advance(Frame::filled(8, 8, 100).unwrap()), Ok(None)));
    let mut samples = vec![100u8; 64];
    samples[9] = 120;
    let mask = pipeline.advance(Frame::new(8, 8, samples).unwrap()).unwrap().unwrap();
    assert_eq!(mask.get(1, 1), Some(255));
    assert_eq!(mask.samples().iter().filter(|&&s| s != 0).count(), 1);
}

#[test]
fn a_threshold_of_zero_marks_a_still_frame() {
    let mut config = settings(1, 1, 0);
    config.threshold = Threshold { thresh: 0, maxval: 255 };
    let mut pipeline = MotionPipeline::new(config).unwrap();
    assert!(matches!(pipeline.advance(Frame::filled(4, 4, 9).unwrap()), Ok(None)));
    let mask = pipeline.advance(Frame::filled(4, 4, 9).unwrap()).unwrap().unwrap();
    assert_eq!(mask.samples(), &vec![255u8; 16]);
}

#[test]
fn a_frame_of_other_dimensions_is_refused() {
    let mut pipeline = MotionPipeline::new(Config::new()).unwrap();
    assert!(matches!(pipeline.advance(Frame::filled(8, 8, 0).unwrap()), Ok(None)));
    assert!(matches!(
        pipeline.advance(Frame::filled(8, 9, 0).unwrap()),
        Err(PipelineError::ShapeMismatch)
    ));
    // The pipeline still compares with the frame it held.
    assert!(pipeline.has_previous());
    assert!(matches!(pipeline.advance(Frame::filled(8, 8, 0).unwrap()), Ok(None)));
}

#[test]
fn boxes_apply_the_minimum_area_of_the_settings() {
    let p = |x: i32, y: i32| Point { x, y };
    let contours = vec![
        vec![p(0, 0), p(0, 100), p(100, 100), p(100, 0)],
        vec![p(0, 0), p(0, 99), p(100, 99), p(100, 0)],
    ];
    let pipeline = MotionPipeline::new(Config::new()).unwrap();
    assert_eq!(
        pipeline.boxes(&contours),
        Ok(vec![BoundingBox { x: 0, y: 0, width: 101, height: 101 }])
    );
    assert_eq!(
        pipeline.boxes(&vec![Vec::new()]),
        Err(PipelineError::MalformedContour)
    );
}

#[test]
fn a_larger_minimum_area_yields_a_subset() {
    let p = |x: i32, y: i32| Point { x, y };
    let contours: Vec<Vec<Point>> = (1..12)
        .map(|k| vec![p(k, k), p(k, 5 * k), p(7 * k, 5 * k), p(7 * k, k)])
        .collect();
    let mut previous: Option<Vec<BoundingBox>> = None;
    for minimum in [0u64, 10, 100, 1000, 5000, 10000, 100000] {
        let pipeline = MotionPipeline::new(settings(35, 35, minimum)).unwrap();
        let current = pipeline.boxes(&contours).unwrap();
        if let Some(larger) = &previous {
            assert!(current.iter().all(|b| larger.contains(b)));
        }
        previous = Some(current);
    }
    assert_eq!(previous, Some(Vec::new()));
}
