//! The angle resolver: how a drag changes the accumulated rotation.
//!
//! Angles are [`Fixed`] degrees. In free mode a vertical drag turns the image
//! continuously within 45 degrees either way. In line mode a completed drag
//! is taken for a line that should have been horizontal or vertical, and the
//! rotation that makes it so is added to the accumulated angle.

use vstd::prelude::*;
use crate::fixed::{clamped, saturated, tenth, Fixed};

verus! {

/// The largest magnitude, in millionths of a degree, that a free drag reaches.
pub const FREE_LIMIT: i64 = 45_000_000;

/// Half a turn, in millionths of a degree.
pub const HALF_TURN: i64 = 180_000_000;

/// A quarter of a turn, in millionths of a degree.
pub const QUARTER_TURN: i64 = 90_000_000;

/// Below this direction a line counts as nearly horizontal.
pub const FLAT_BELOW: i64 = 40_000_000;

/// Above this direction a line counts as nearly horizontal again.
pub const FLAT_ABOVE: i64 = 140_000_000;

/// Above this direction, and below [`UPRIGHT_BELOW`], a line counts as nearly
/// vertical.
pub const UPRIGHT_ABOVE: i64 = 50_000_000;

/// See [`UPRIGHT_ABOVE`].
pub const UPRIGHT_BELOW: i64 = 130_000_000;

/// How a drag is read.
#[derive(Clone, Copy, Debug, PartialEq, Eq, Structural)]
pub enum RotationMode {
    /// The vertical travel of the pointer turns the image continuously.
    Free,
    /// A completed drag marks a line to be made horizontal or vertical.
    Line,
}

/// The angle after a free drag by `delta_y` pixels from the angle `old`: a
/// tenth of a degree for each pixel, kept within 45 degrees either way.
pub open spec fn free_drag_angle(old: int, delta_y: int) -> int {
    clamped(old + tenth(delta_y), -FREE_LIMIT, FREE_LIMIT as int)
}

/// The direction of a line, from 0 to 180 degrees, given the direction `raw`
/// of a vector along it, from -180 to 180 degrees.
pub open spec fn line_direction(raw: int) -> int {
    if raw < 0 {
        raw + HALF_TURN
    } else {
        raw
    }
}

/// The rotation that brings a line of direction `a` to the nearer of the
/// horizontal and the vertical, and nothing for the lines within five degrees
/// of a diagonal.
pub open spec fn snap_correction(a: int) -> int {
    if a < FLAT_BELOW {
        -a
    } else if a > FLAT_ABOVE {
        HALF_TURN - a
    } else if UPRIGHT_ABOVE < a < UPRIGHT_BELOW {
        QUARTER_TURN - a
    } else {
        0
    }
}

/// The angle after a line drag along the direction `raw` from the angle
/// `old`.
pub open spec fn line_drag_angle(old: int, raw: int) -> int {
    saturated(old + snap_correction(line_direction(raw)))
}

/// The direction of a line given the direction of a vector along it.
pub fn normalize_direction(raw: Fixed) -> (a: Fixed)
    ensures
        a@ == line_direction(raw@),
{
    if raw.micros < 0 {
        Fixed { micros: raw.micros + HALF_TURN }
    } else {
        raw
    }
}

/// The rotation that a line of direction `a` asks for. The result for
/// directions that no `Fixed` can negate is held at the nearest value.
pub fn correction_for(a: Fixed) -> (c: Fixed)
    ensures
        c@ == saturated(snap_correction(a@)),
{
    if a.micros < FLAT_BELOW {
        Fixed { micros: 0 }.saturating_sub(a)
    } else if a.micros > FLAT_ABOVE {
        Fixed { micros: HALF_TURN - a.micros }
    } else if a.micros > UPRIGHT_ABOVE && a.micros < UPRIGHT_BELOW {
        Fixed { micros: QUARTER_TURN - a.micros }
    } else {
        Fixed { micros: 0 }
    }
}

/// The accumulated rotation of the image on display, and the mode in which
/// drags are read. In free mode the angle stays within 45 degrees either way.
#[derive(Clone, Copy, Debug)]
pub struct RotationState {
    accumulated_degrees: Fixed,
    mode: RotationMode,
}

impl RotationState {
    /// The accumulated angle, in millionths of a degree.
    pub closed spec fn angle(&self) -> int {
        self.accumulated_degrees@
    }

    /// The mode in which drags are read.
    pub closed spec fn mode(&self) -> RotationMode {
        self.mode
    }

    #[verifier::type_invariant]
    closed spec fn within_mode(&self) -> bool {
        self.mode == RotationMode::Free ==> -FREE_LIMIT <= self.accumulated_degrees@ <= FREE_LIMIT
    }

    /// The state of a freshly selected image: no rotation yet.
    pub fn reset(mode: RotationMode) -> (s: RotationState)
        ensures
            s.angle() == 0,
            s.mode() == mode,
    {
        RotationState { accumulated_degrees: Fixed { micros: 0 }, mode }
    }

    /// A state with a given angle, as when one is read back from storage. In
    /// free mode the angle is brought within 45 degrees either way.
    pub fn restore(angle: Fixed, mode: RotationMode) -> (s: RotationState)
        ensures
            s.mode() == mode,
            mode == RotationMode::Line ==> s.angle() == angle@,
            mode == RotationMode::Free ==> s.angle() == clamped(
                angle@,
                -FREE_LIMIT,
                FREE_LIMIT as int,
            ),
    {
        match mode {
            RotationMode::Line => RotationState { accumulated_degrees: angle, mode },
            RotationMode::Free => RotationState { accumulated_degrees: clamp_free(angle), mode },
        }
    }

    /// The accumulated angle.
    pub fn accumulated_degrees(&self) -> (a: Fixed)
        ensures
            a@ == self.angle(),
            self.mode() == RotationMode::Free ==> -FREE_LIMIT <= a@ <= FREE_LIMIT,
    {
        proof {
            use_type_invariant(self);
        }
        self.accumulated_degrees
    }

    /// The mode in which drags are read.
    pub fn rotation_mode(&self) -> (m: RotationMode)
        ensures
            m == self.mode(),
    {
        self.mode
    }

    /// The same rotation read in another mode. Entering free mode brings the
    /// angle within 45 degrees either way.
    pub fn with_mode(self, mode: RotationMode) -> (s: RotationState)
        ensures
            s.mode() == mode,
            mode == RotationMode::Line ==> s.angle() == self.angle(),
            mode == RotationMode::Free ==> s.angle() == clamped(
                self.angle(),
                -FREE_LIMIT,
                FREE_LIMIT as int,
            ),
    {
        RotationState::restore(self.accumulated_degrees, mode)
    }

    /// Turns the image by a vertical drag of `delta_y` pixels.
    pub fn apply_free_drag(self, delta_y: Fixed) -> (s: RotationState)
        requires
            self.mode() == RotationMode::Free,
        ensures
            s.mode() == RotationMode::Free,
            s.angle() == free_drag_angle(self.angle(), delta_y@),
            -FREE_LIMIT <= s.angle() <= FREE_LIMIT,
    {
        let moved: Fixed = self.accumulated_degrees.saturating_add(delta_y.tenth());
        RotationState { accumulated_degrees: clamp_free(moved), mode: RotationMode::Free }
    }

    /// Adds the rotation that a completed line drag asks for. `raw` is the
    /// direction, from -180 to 180 degrees, of the vector from the point of
    /// release back to the point where the drag began.
    pub fn apply_line_drag(self, raw: Fixed) -> (s: RotationState)
        requires
            self.mode() == RotationMode::Line,
        ensures
            s.mode() == RotationMode::Line,
            s.angle() == line_drag_angle(self.angle(), raw@),
    {
        let correction: Fixed = correction_for(normalize_direction(raw));
        RotationState {
            accumulated_degrees: self.accumulated_degrees.saturating_add(correction),
            mode: RotationMode::Line,
        }
    }
}

/// `angle` brought within 45 degrees either way.
fn clamp_free(angle: Fixed) -> (r: Fixed)
    ensures
        r@ == clamped(angle@, -FREE_LIMIT, FREE_LIMIT as int),
{
    if angle.micros < -FREE_LIMIT {
        Fixed { micros: -FREE_LIMIT }
    } else if angle.micros > FREE_LIMIT {
        Fixed { micros: FREE_LIMIT }
    } else {
        angle
    }
}

/// A free drag from no rotation gives a tenth of a degree for each pixel,
/// kept within 45 degrees either way.
pub proof fn law_free_drag_from_rest(delta_y: int)
    ensures
        free_drag_angle(0, delta_y) == clamped(tenth(delta_y), -FREE_LIMIT, FREE_LIMIT as int),
{
}

/// Whatever the angle before and however far the drag, the angle after a free
/// drag lies within 45 degrees either way.
pub proof fn law_free_drag_bounded(old: int, delta_y: int)
    ensures
        -FREE_LIMIT <= free_drag_angle(old, delta_y) <= FREE_LIMIT,
{
}

/// A free drag that does not move leaves an angle within 45 degrees as it is,
/// and so a second such drag changes nothing after the first.
pub proof fn law_still_drag_idempotent(old: int)
    ensures
        -FREE_LIMIT <= old <= FREE_LIMIT ==> free_drag_angle(old, 0) == old,
        free_drag_angle(free_drag_angle(old, 0), 0) == free_drag_angle(old, 0),
{
}

/// A line drag never turns the image by 40 degrees or more, and within five
/// degrees of a diagonal it does not turn it at all.
pub proof fn law_snap_is_small(raw: int)
    requires
        -HALF_TURN < raw <= HALF_TURN,
    ensures
        0 <= line_direction(raw) <= HALF_TURN,
        -FLAT_BELOW < snap_correction(line_direction(raw)) < FLAT_BELOW,
        FLAT_BELOW <= line_direction(raw) <= UPRIGHT_ABOVE || UPRIGHT_BELOW <= line_direction(raw)
            <= FLAT_ABOVE ==> snap_correction(line_direction(raw)) == 0,
{
}

/// A correction that is not nothing makes up for the whole distance to an
/// axis: the direction `a` and its correction add up to 0, 90 or 180
/// degrees.
pub proof fn law_snap_reaches_axis(a: int)
    requires
        0 <= a <= HALF_TURN,
        snap_correction(a) != 0,
    ensures
        a + snap_correction(a) == 0 || a + snap_correction(a) == QUARTER_TURN || a
            + snap_correction(a) == HALF_TURN,
{
}

} // verus!
