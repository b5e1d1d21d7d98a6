use motion_detector::capture::{Action, CaptureLoop, Event, Phase, StopReason, STOP_KEY};
use motion_detector::config::{Config, Threshold};
use motion_detector::frame::Frame;
use motion_detector::geometry::{BoundingBox, Point};

fn plain(rows: i32, cols: i32, min_doubled_area: u64) -> CaptureLoop {
    CaptureLoop::new(Config {
        kernel_rows: rows,
        kernel_cols: cols,
        threshold: Threshold { thresh: 20, maxval: 255 },
        min_doubled_area,
    })
    .expect("usable settings")
}

fn with_square(size: usize, x0: usize, y0: usize, side: usize) -> Frame {
    let mut samples = vec![0u8; size * size];
    for y in y0..y0 + side {
        for x in x0..x0 + side {
            samples[y * size + x] = 255;
        }
    }
    Frame::new(size, size, samples).unwrap()
}

fn corners(x0: i32, y0: i32, x1: i32, y1: i32) -> Vec<Point> {
    vec![
        Point { x: x0, y: y0 },
        Point { x: x0, y: y1 },
        Point { x: x1, y: y1 },
        Point { x: x1, y: y0 },
    ]
}

#[test]
fn a_new_loop_waits_for_a_frame() {
    let capture = CaptureLoop::new(Config::new()).unwrap();
    assert_eq!(capture.phase(), Phase::AwaitingFrame);
    assert_eq!(capture.config(), Config::new());
    let mut broken = Config::new();
    broken.kernel_cols = 0;
    assert!(CaptureLoop::new(broken).is_none());
}

#[test]
fn two_identical_solid_frames_publish_nothing_twice() {
    let mut capture = CaptureLoop::new(Config::new()).unwrap();
    for _ in 0..2 {
        let action = capture.step(Event::Frame(Frame::filled(64, 64, 77).unwrap()));
        assert!(matches!(action, Action::Publish(ref boxes) if boxes.is_empty()));
        assert_eq!(capture.phase(), Phase::AwaitingKey);
        assert!(matches!(capture.step(Event::Key(-1)), Action::Acquire));
        assert_eq!(capture.phase(), Phase::AwaitingFrame);
    }
}

#[test]
fn the_first_frame_publishes_nothing_whatever_it_shows() {
    let mut capture = plain(1, 1, 0);
    let action = capture.step(Event::Frame(with_square(100, 10, 10, 50)));
    assert!(matches!(action, Action::Publish(ref boxes) if boxes.is_empty()));
}

#[test]
fn a_square_that_appears_is_traced_and_published() {
    let mut capture = plain(1, 1, 20);
    assert!(matches!(
        capture.step(Event::Frame(Frame::filled(100, 100, 0).unwrap())),
        Action::Publish(_)
    ));
    assert!(matches!(capture.step(Event::Key(-1)), Action::Acquire));
    let mask = match capture.step(Event::Frame(with_square(100, 10, 10, 50))) {
        Action::Trace(mask) => mask,
        other => panic!("expected a mask to trace, got {:?}", other),
    };
    assert_eq!(capture.phase(), Phase::AwaitingContours);
    assert_eq!(mask.get(10, 10), Some(255));
    assert_eq!(mask.get(59, 59), Some(255));
    assert_eq!(mask.get(9, 10), Some(0));
    assert_eq!(mask.get(60, 59), Some(0));
    let action = capture.step(Event::Contours(vec![corners(10, 10, 59, 59)]));
    match action {
        Action::Publish(boxes) => {
            assert_eq!(boxes, vec![BoundingBox { x: 10, y: 10, width: 50, height: 50 }])
        }
        other => panic!("expected a result, got {:?}", other),
    }
    assert_eq!(capture.phase(), Phase::AwaitingKey);
}

#[test]
fn contours_that_are_too_small_publish_nothing() {
    let mut capture = plain(1, 1, 2 * 49 * 49 + 1);
    capture.step(Event::Frame(Frame::filled(100, 100, 0).unwrap()));
    capture.step(Event::Key(0));
    assert!(matches!(
        capture.step(Event::Frame(with_square(100, 10, 10, 50))),
        Action::Trace(_)
    ));
    let action = capture.step(Event::Contours(vec![corners(10, 10, 59, 59)]));
    assert!(matches!(action, Action::Publish(ref boxes) if boxes.is_empty()));
}

#[test]
fn the_stop_key_ends_the_loop() {
    let mut capture = CaptureLoop::new(Config::new()).unwrap();
    capture.step(Event::Frame(Frame::filled(4, 4, 0).unwrap()));
    assert_eq!(STOP_KEY, 27);
    assert!(matches!(
        capture.step(Event::Key(STOP_KEY)),
        Action::Stop(StopReason::Requested)
    ));
    assert_eq!(capture.phase(), Phase::Stopped);
}

#[test]
fn a_failure_ends_the_loop_in_every_phase() {
    let mut capture = CaptureLoop::new(Config::new()).unwrap();
    assert!(matches!(capture.step(Event::Failure), Action::Stop(StopReason::Failure)));
    assert_eq!(capture.phase(), Phase::Stopped);

    let mut capture = plain(1, 1, 0);
    capture.step(Event::Frame(Frame::filled(8, 8, 0).unwrap()));
    assert!(matches!(capture.step(Event::Failure), Action::Stop(StopReason::Failure)));

    let mut capture = plain(1, 1, 0);
    capture.step(Event::Frame(Frame::filled(8, 8, 0).unwrap()));
    capture.step(Event::Key(-1));
    assert!(matches!(
        capture.step(Event::Frame(with_square(8, 1, 1, 2))),
        Action::Trace(_)
    ));
    assert!(matches!(capture.step(Event::Failure), Action::Stop(StopReason::Failure)));
    assert_eq!(capture.phase(), Phase::Stopped);
}

#[test]
fn a_frame_of_other_dimensions_ends_the_loop() {
    let mut capture = CaptureLoop::new(Config::new()).unwrap();
    capture.step(Event::Frame(Frame::filled(8, 8, 0).unwrap()));
    capture.step(Event::Key(-1));
    assert!(matches!(
        capture.step(Event::Frame(Frame::filled(9, 8, 0).unwrap())),
        Action::Stop(StopReason::ShapeMismatch)
    ));
    assert_eq!(capture.phase(), Phase::Stopped);
}

#[test]
fn a_contour_without_box_ends_the_loop() {
    let mut capture = plain(1, 1, 0);
    capture.step(Event::Frame(Frame::filled(8, 8, 0).unwrap()));
    capture.step(Event::Key(-1));
    capture.step(Event::Frame(with_square(8, 1, 1, 2)));
    assert!(matches!(
        capture.step(Event::Contours(vec![Vec::new()])),
        Action::Stop(StopReason::MalformedContour)
    ));
    assert_eq!(capture.phase(), Phase::Stopped);
}

#[test]
fn an_event_out_of_turn_ends_the_loop() {
    let mut capture = CaptureLoop::new(Config::new()).unwrap();
    assert!(matches!(
        capture.step(Event::Key(-1)),
        Action::Stop(StopReason::OutOfTurn)
    ));
    let mut capture = CaptureLoop::new(Config::new()).unwrap();
    assert!(matches!(
        capture.step(Event::Contours(Vec::new())),
        Action::Stop(StopReason::OutOfTurn)
    ));
    let mut capture = CaptureLoop::new(Config::new()).unwrap();
    capture.step(Event::Frame(Frame::filled(8, 8, 0).unwrap()));
    assert!(matches!(
        capture.step(Event::Frame(Frame::filled(8, 8, 0).unwrap())),
        Action::Stop(StopReason::OutOfTurn)
    ));
}

#[test]
fn a_stopped_loop_stays_stopped() {
    let mut capture = CaptureLoop::new(Config::new()).unwrap();
    capture.step(Event::Failure);
    for _ in 0..3 {
        assert!(matches!(
            capture.step(Event::Frame(Frame::filled(8, 8, 0).unwrap())),
            Action::Stop(StopReason::OutOfTurn)
        ));
        assert!(matches!(capture.step(Event::Key(5)), Action::Stop(StopReason::OutOfTurn)));
        assert!(matches!(capture.step(Event::Failure), Action::Stop(StopReason::OutOfTurn)));
        assert_eq!(capture.phase(), Phase::Stopped);
    }
}
