use rt_image_rotator::angle::RotationMode;
use rt_image_rotator::fixed::Fixed;
use rt_image_rotator::gesture::{DragGesture, Point2D};
use rt_image_rotator::session::{Action, Event, RtImageRotator, SavedSession};

fn degrees(whole: i32) -> Fixed {
    Fixed::from_whole(whole)
}

fn at(x: i32, y: i32) -> Point2D {
    Point2D { x, y }
}

/// A session with `count` images listed, in line mode.
fn listing(count: usize) -> RtImageRotator {
    let mut s = RtImageRotator::default();
    assert_eq!(s.handle(Event::DirectoryListed(count)), Action::Nothing);
    s
}

/// The direction of the reversed vector of a gesture, as the window measures it.
fn direction(gesture: &DragGesture) -> Fixed {
    let (dx, dy) = gesture.reversed_vector();
    let degrees = (dy as f64).atan2(dx as f64).to_degrees();
    Fixed::from_micros((degrees * 1_000_000.0).round() as i64)
}

#[test]
fn default_session_is_empty_and_in_line_mode() {
    let s = RtImageRotator::default();
    assert_eq!(s.image_count(), 0);
    assert_eq!(s.current_image_idx(), 0);
    assert_eq!(s.current_image(), None);
    assert_eq!(s.current_rotation(), degrees(0));
    assert_eq!(s.rotation_mode(), RotationMode::Line);
    assert_eq!(s.drag_start(), None);
}

#[test]
fn new_session_resumes_what_was_saved() {
    let s = RtImageRotator::new(None);
    assert_eq!(s.saved(), RtImageRotator::default().saved());
    let saved = SavedSession {
        current_image_idx: 4,
        current_rotation: degrees(-50),
        rotation_mode: RotationMode::Line,
    };
    let s = RtImageRotator::new(Some(saved));
    assert_eq!(s.saved(), saved);
    assert_eq!(s.image_count(), 0);
    assert_eq!(s.current_image(), None);
    assert_eq!(s.drag_start(), None);
    let saved = SavedSession {
        current_image_idx: 1,
        current_rotation: degrees(-50),
        rotation_mode: RotationMode::Free,
    };
    let s = RtImageRotator::new(Some(saved));
    assert_eq!(s.current_rotation(), degrees(-45));
    assert_eq!(s.rotation_mode(), RotationMode::Free);
    assert_eq!(s.current_image_idx(), 1);
}

#[test]
fn selecting_an_image_resets_the_rotation() {
    let mut s = listing(5);
    s.handle(Event::DirectionMeasured(degrees(10)));
    assert_eq!(s.current_rotation(), degrees(-10));
    s.select_image(3);
    assert_eq!(s.current_image_idx(), 3);
    assert_eq!(s.current_rotation(), degrees(0));
    assert_eq!(s.rotation_mode(), RotationMode::Line);
    s.handle(Event::ModeChosen(RotationMode::Free));
    s.handle(Event::Dragged(degrees(1000)));
    assert_eq!(s.current_rotation(), degrees(45));
    s.select_image(3);
    assert_eq!(s.current_rotation(), degrees(0));
    assert_eq!(s.rotation_mode(), RotationMode::Free);
    s.handle(Event::Dragged(degrees(-70)));
    assert_eq!(s.handle(Event::ImageClicked(0)), Action::Nothing);
    assert_eq!(s.current_image_idx(), 0);
    assert_eq!(s.current_rotation(), degrees(0));
}

#[test]
fn selecting_an_image_drops_the_drag() {
    let mut s = listing(5);
    s.handle(Event::DragStarted(Some(at(1, 1))));
    assert_eq!(s.drag_start(), Some(at(1, 1)));
    s.select_image(2);
    assert_eq!(s.drag_start(), None);
    assert_eq!(s.handle(Event::DragReleased(at(9, 9))), Action::Nothing);
}

#[test]
fn keys_step_through_the_listing() {
    let mut s = listing(3);
    s.handle(Event::PreviousImage);
    assert_eq!(s.current_image_idx(), 0);
    s.handle(Event::NextImage);
    assert_eq!(s.current_image_idx(), 1);
    s.handle(Event::DirectionMeasured(degrees(20)));
    s.handle(Event::NextImage);
    assert_eq!(s.current_image_idx(), 2);
    assert_eq!(s.current_rotation(), degrees(0));
    s.handle(Event::DirectionMeasured(degrees(20)));
    s.handle(Event::NextImage);
    assert_eq!(s.current_image_idx(), 2);
    assert_eq!(s.current_rotation(), degrees(-20));
    s.handle(Event::PreviousImage);
    assert_eq!(s.current_image_idx(), 1);
    assert_eq!(s.current_rotation(), degrees(0));
}

#[test]
fn keys_do_nothing_outside_the_listing() {
    let mut s = listing(0);
    s.handle(Event::NextImage);
    s.handle(Event::PreviousImage);
    assert_eq!(s.current_image_idx(), 0);
    let mut s = listing(3);
    s.select_image(7);
    s.handle(Event::DirectionMeasured(degrees(10)));
    s.handle(Event::PreviousImage);
    assert_eq!(s.current_image_idx(), 7);
    assert_eq!(s.current_rotation(), degrees(-10));
    s.select_image(3);
    s.handle(Event::PreviousImage);
    assert_eq!(s.current_image_idx(), 2);
    s.select_image(usize::MAX);
    s.handle(Event::NextImage);
    assert_eq!(s.current_image_idx(), usize::MAX);
}

#[test]
fn listing_a_directory_keeps_the_place_and_resets_the_rotation() {
    let mut s = listing(5);
    s.select_image(4);
    s.handle(Event::DirectionMeasured(degrees(10)));
    s.handle(Event::DragStarted(Some(at(0, 0))));
    s.handle(Event::DirectoryListed(2));
    assert_eq!(s.image_count(), 2);
    assert_eq!(s.current_image_idx(), 4);
    assert_eq!(s.current_image(), None);
    assert_eq!(s.current_rotation(), degrees(0));
    assert_eq!(s.drag_start(), None);
    s.handle(Event::DirectoryListed(9));
    assert_eq!(s.current_image(), Some(4));
}

#[test]
fn reset_puts_the_rotation_back() {
    let mut s = listing(1);
    s.handle(Event::DirectionMeasured(degrees(30)));
    s.handle(Event::DragStarted(Some(at(2, 2))));
    assert_eq!(s.handle(Event::ResetRotation), Action::Nothing);
    assert_eq!(s.current_rotation(), degrees(0));
    assert_eq!(s.rotation_mode(), RotationMode::Line);
    assert_eq!(s.drag_start(), Some(at(2, 2)));
}

#[test]
fn free_drags_count_in_free_mode_only() {
    let mut s = listing(1);
    s.handle(Event::Dragged(degrees(100)));
    assert_eq!(s.current_rotation(), degrees(0));
    s.handle(Event::ModeChosen(RotationMode::Free));
    s.handle(Event::Dragged(degrees(100)));
    assert_eq!(s.current_rotation(), degrees(10));
    s.handle(Event::Dragged(degrees(-30)));
    assert_eq!(s.current_rotation(), degrees(7));
    s.handle(Event::DirectionMeasured(degrees(10)));
    assert_eq!(s.current_rotation(), degrees(7));
    s.handle(Event::DragStarted(Some(at(1, 1))));
    assert_eq!(s.drag_start(), None);
    assert_eq!(s.handle(Event::DragReleased(at(2, 2))), Action::Nothing);
}

#[test]
fn drags_need_an_image() {
    let mut s = listing(0);
    s.handle(Event::DragStarted(Some(at(1, 1))));
    assert_eq!(s.drag_start(), None);
    s.handle(Event::ModeChosen(RotationMode::Free));
    s.handle(Event::Dragged(degrees(100)));
    assert_eq!(s.current_rotation(), degrees(0));
}

#[test]
fn a_line_drag_is_measured_and_applied() {
    let mut s = listing(1);
    assert_eq!(s.handle(Event::DragStarted(Some(at(100, 100)))), Action::Nothing);
    let action = s.handle(Event::DragReleased(at(100, 0)));
    let gesture = DragGesture { start: at(100, 100), end: at(100, 0) };
    assert_eq!(action, Action::MeasureDirection(gesture));
    assert_eq!(s.drag_start(), None);
    assert_eq!(direction(&gesture), degrees(90));
    s.handle(Event::DirectionMeasured(direction(&gesture)));
    assert_eq!(s.current_rotation(), degrees(0));

    // A drag to the left and a little down: the vector back points right and a little up.
    s.handle(Event::DragStarted(Some(at(1000, 0))));
    let action = s.handle(Event::DragReleased(at(0, 100)));
    let Action::MeasureDirection(gesture) = action else {
        panic!("no gesture");
    };
    assert_eq!(gesture.reversed_vector(), (1000, -100));
    let raw = direction(&gesture);
    assert_eq!(raw.micros(), -5_710_593);
    s.handle(Event::DirectionMeasured(raw));
    // The line lies at 174.289407 degrees and is turned on to 180.
    assert_eq!(s.current_rotation().micros(), 5_710_593);
}

#[test]
fn a_diagonal_drag_changes_nothing() {
    let mut s = listing(1);
    s.handle(Event::DirectionMeasured(degrees(10)));
    s.handle(Event::DragStarted(Some(at(50, 50))));
    let Action::MeasureDirection(gesture) = s.handle(Event::DragReleased(at(0, 0))) else {
        panic!("no gesture");
    };
    assert_eq!(direction(&gesture), degrees(45));
    s.handle(Event::DirectionMeasured(direction(&gesture)));
    assert_eq!(s.current_rotation(), degrees(-10));
}

#[test]
fn a_release_without_a_drag_asks_for_nothing() {
    let mut s = listing(1);
    assert_eq!(s.handle(Event::DragReleased(at(5, 5))), Action::Nothing);
    s.handle(Event::DragStarted(None));
    assert_eq!(s.handle(Event::DragReleased(at(5, 5))), Action::Nothing);
}

#[test]
fn choosing_free_mode_brings_the_angle_in_range() {
    let mut s = listing(1);
    for _ in 0..3 {
        s.handle(Event::DirectionMeasured(degrees(20)));
    }
    assert_eq!(s.current_rotation(), degrees(-60));
    s.handle(Event::ModeChosen(RotationMode::Free));
    assert_eq!(s.rotation_mode(), RotationMode::Free);
    assert_eq!(s.current_rotation(), degrees(-45));
    s.handle(Event::ModeChosen(RotationMode::Line));
    assert_eq!(s.current_rotation(), degrees(-45));
}

#[test]
fn applying_asks_for_the_sidecar_of_the_image() {
    let mut s = listing(3);
    s.select_image(2);
    s.handle(Event::DirectionMeasured(degrees(10)));
    assert_eq!(
        s.handle(Event::ApplyRotation),
        Action::RewriteSidecar { image_idx: 2, delta: degrees(-10) }
    );
    assert_eq!(s.current_rotation(), degrees(-10));
    s.select_image(3);
    assert_eq!(s.handle(Event::ApplyRotation), Action::Nothing);
}

#[test]
fn saved_session_round_trip() {
    let mut s = listing(4);
    s.select_image(2);
    s.handle(Event::ModeChosen(RotationMode::Free));
    s.handle(Event::Dragged(degrees(55)));
    let saved = s.saved();
    assert_eq!(
        saved,
        SavedSession {
            current_image_idx: 2,
            current_rotation: Fixed::from_micros(5_500_000),
            rotation_mode: RotationMode::Free,
        }
    );
    let again = RtImageRotator::new(Some(saved));
    assert_eq!(again.saved(), saved);
}
