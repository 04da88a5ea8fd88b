use rt_image_rotator::angle::{correction_for, normalize_direction, RotationMode, RotationState};
use rt_image_rotator::fixed::Fixed;

fn degrees(whole: i32) -> Fixed {
    Fixed::from_whole(whole)
}

fn line_state() -> RotationState {
    RotationState::reset(RotationMode::Line)
}

fn free_state() -> RotationState {
    RotationState::reset(RotationMode::Free)
}

#[test]
fn reset_starts_without_rotation() {
    let s = RotationState::reset(RotationMode::Free);
    assert_eq!(s.accumulated_degrees(), Fixed::from_micros(0));
    assert_eq!(s.rotation_mode(), RotationMode::Free);
    let s = RotationState::reset(RotationMode::Line);
    assert_eq!(s.accumulated_degrees().micros(), 0);
    assert_eq!(s.rotation_mode(), RotationMode::Line);
}

#[test]
fn free_drag_turns_a_tenth_of_a_degree_per_pixel() {
    let s = free_state().apply_free_drag(degrees(25));
    assert_eq!(s.accumulated_degrees().micros(), 2_500_000);
    let s = s.apply_free_drag(degrees(-100));
    assert_eq!(s.accumulated_degrees().micros(), -7_500_000);
    let s = free_state().apply_free_drag(Fixed::from_micros(1_234_567));
    assert_eq!(s.accumulated_degrees().micros(), 123_456);
    let s = free_state().apply_free_drag(Fixed::from_micros(-1_234_567));
    assert_eq!(s.accumulated_degrees().micros(), -123_456);
}

#[test]
fn free_drag_is_clamped_to_45_degrees() {
    let s = free_state().apply_free_drag(degrees(450));
    assert_eq!(s.accumulated_degrees(), degrees(45));
    let s = free_state().apply_free_drag(degrees(451));
    assert_eq!(s.accumulated_degrees(), degrees(45));
    let s = free_state().apply_free_drag(degrees(-10_000));
    assert_eq!(s.accumulated_degrees(), degrees(-45));
    let s = free_state().apply_free_drag(Fixed::from_micros(i64::MAX));
    assert_eq!(s.accumulated_degrees(), degrees(45));
    let s = s.apply_free_drag(Fixed::from_micros(i64::MAX));
    assert_eq!(s.accumulated_degrees(), degrees(45));
    let s = s.apply_free_drag(Fixed::from_micros(i64::MIN));
    assert_eq!(s.accumulated_degrees(), degrees(-45));
}

#[test]
fn free_drag_without_travel_changes_nothing() {
    let s = free_state().apply_free_drag(degrees(123));
    let once = s.apply_free_drag(degrees(0));
    let twice = once.apply_free_drag(degrees(0));
    assert_eq!(once.accumulated_degrees(), s.accumulated_degrees());
    assert_eq!(twice.accumulated_degrees(), once.accumulated_degrees());
}

#[test]
fn line_drag_snaps_a_flat_line_to_the_horizontal() {
    let s = line_state().apply_line_drag(degrees(10));
    assert_eq!(s.accumulated_degrees(), degrees(-10));
    let s = line_state().apply_line_drag(degrees(170));
    assert_eq!(s.accumulated_degrees(), degrees(10));
}

#[test]
fn line_drag_snaps_a_steep_line_to_the_vertical() {
    let s = line_state().apply_line_drag(degrees(90));
    assert_eq!(s.accumulated_degrees(), degrees(0));
    let s = line_state().apply_line_drag(degrees(80));
    assert_eq!(s.accumulated_degrees(), degrees(10));
    let s = line_state().apply_line_drag(degrees(100));
    assert_eq!(s.accumulated_degrees(), degrees(-10));
}

#[test]
fn line_drag_near_a_diagonal_changes_nothing() {
    let start = line_state().apply_line_drag(degrees(10));
    for a in [40, 45, 50, 130, 135, 140] {
        let s = start.apply_line_drag(degrees(a));
        assert_eq!(s.accumulated_degrees(), degrees(-10));
    }
}

#[test]
fn line_drag_sectors_end_where_they_should() {
    let just_below_40 = Fixed::from_micros(39_999_999);
    let s = line_state().apply_line_drag(just_below_40);
    assert_eq!(s.accumulated_degrees().micros(), -39_999_999);
    let just_above_140 = Fixed::from_micros(140_000_001);
    let s = line_state().apply_line_drag(just_above_140);
    assert_eq!(s.accumulated_degrees().micros(), 39_999_999);
    let just_above_50 = Fixed::from_micros(50_000_001);
    let s = line_state().apply_line_drag(just_above_50);
    assert_eq!(s.accumulated_degrees().micros(), 39_999_999);
    let just_below_130 = Fixed::from_micros(129_999_999);
    let s = line_state().apply_line_drag(just_below_130);
    assert_eq!(s.accumulated_degrees().micros(), -39_999_999);
}

#[test]
fn line_drag_reads_a_downward_vector_as_its_line() {
    // -170 degrees is the line of 10 degrees, -10 degrees the line of 170.
    let s = line_state().apply_line_drag(degrees(-170));
    assert_eq!(s.accumulated_degrees(), degrees(-10));
    let s = line_state().apply_line_drag(degrees(-10));
    assert_eq!(s.accumulated_degrees(), degrees(10));
    let s = line_state().apply_line_drag(degrees(180));
    assert_eq!(s.accumulated_degrees(), degrees(0));
    assert_eq!(normalize_direction(degrees(-90)), degrees(90));
    assert_eq!(normalize_direction(degrees(0)), degrees(0));
    assert_eq!(normalize_direction(degrees(135)), degrees(135));
}

#[test]
fn line_drag_accumulates_without_bound() {
    let mut s = line_state();
    for _ in 0..5 {
        s = s.apply_line_drag(degrees(10));
    }
    assert_eq!(s.accumulated_degrees(), degrees(-50));
    for _ in 0..100 {
        s = s.apply_line_drag(degrees(39));
    }
    assert_eq!(s.accumulated_degrees(), degrees(-3950));
}

#[test]
fn line_drag_stops_at_the_last_value() {
    let s = RotationState::restore(Fixed::from_micros(i64::MIN + 5), RotationMode::Line);
    let s = s.apply_line_drag(degrees(10));
    assert_eq!(s.accumulated_degrees().micros(), i64::MIN);
    let s = RotationState::restore(Fixed::from_micros(i64::MAX - 5), RotationMode::Line);
    let s = s.apply_line_drag(degrees(170));
    assert_eq!(s.accumulated_degrees().micros(), i64::MAX);
}

#[test]
fn correction_for_each_sector() {
    assert_eq!(correction_for(degrees(0)), degrees(0));
    assert_eq!(correction_for(degrees(39)), degrees(-39));
    assert_eq!(correction_for(degrees(40)), degrees(0));
    assert_eq!(correction_for(degrees(51)), degrees(39));
    assert_eq!(correction_for(degrees(129)), degrees(-39));
    assert_eq!(correction_for(degrees(141)), degrees(39));
    assert_eq!(correction_for(degrees(180)), degrees(0));
    assert_eq!(correction_for(Fixed::from_micros(i64::MIN)).micros(), i64::MAX);
}

#[test]
fn entering_free_mode_brings_the_angle_in_range() {
    let s = line_state().apply_line_drag(degrees(10));
    let mut s = s;
    for _ in 0..5 {
        s = s.apply_line_drag(degrees(10));
    }
    assert_eq!(s.accumulated_degrees(), degrees(-60));
    let free = s.with_mode(RotationMode::Free);
    assert_eq!(free.rotation_mode(), RotationMode::Free);
    assert_eq!(free.accumulated_degrees(), degrees(-45));
    let back = free.with_mode(RotationMode::Line);
    assert_eq!(back.accumulated_degrees(), degrees(-45));
    let kept = line_state().apply_line_drag(degrees(20)).with_mode(RotationMode::Free);
    assert_eq!(kept.accumulated_degrees(), degrees(-20));
}

#[test]
fn restore_keeps_a_line_angle_and_clamps_a_free_one() {
    let s = RotationState::restore(degrees(77), RotationMode::Line);
    assert_eq!(s.accumulated_degrees(), degrees(77));
    let s = RotationState::restore(degrees(77), RotationMode::Free);
    assert_eq!(s.accumulated_degrees(), degrees(45));
    let s = RotationState::restore(degrees(-46), RotationMode::Free);
    assert_eq!(s.accumulated_degrees(), degrees(-45));
    let s = RotationState::restore(degrees(12), RotationMode::Free);
    assert_eq!(s.accumulated_degrees(), degrees(12));
}
