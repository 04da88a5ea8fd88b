//! Drag gestures: where a drag began, where it was released, and the short
//! life of a gesture between the two.

use vstd::prelude::*;

verus! {

/// A position of the pointer. The unit is the caller's, the same for both
/// coordinates.
#[derive(Clone, Copy, Debug, PartialEq, Eq, Structural)]
pub struct Point2D {
    pub x: i32,
    pub y: i32,
}

/// A completed drag.
#[derive(Clone, Copy, Debug, PartialEq, Eq, Structural)]
pub struct DragGesture {
    pub start: Point2D,
    pub end: Point2D,
}

impl DragGesture {
    /// The vector whose direction a line drag is read from.
    ///
    /// It points from the release back to the start of the drag, not along
    /// the drag.
    pub open spec fn reversed(self) -> (int, int) {
        (self.start.x - self.end.x, self.start.y - self.end.y)
    }

    /// The vector from the point of release to the point where the drag
    /// began.
    pub fn reversed_vector(&self) -> (v: (i64, i64))
        ensures
            v.0 == self.reversed().0,
            v.1 == self.reversed().1,
    {
        let dx: i64 = self.start.x as i64 - self.end.x as i64;
        let dy: i64 = self.start.y as i64 - self.end.y as i64;
        (dx, dy)
    }
}

/// Whether a drag is under way, and where it began.
#[derive(Clone, Copy, Debug, PartialEq, Eq, Structural)]
pub enum DragPhase {
    /// No drag is under way.
    Idle,
    /// A drag is under way.
    Dragging { start: Point2D },
}

impl DragPhase {
    /// Whether a drag is under way.
    pub fn is_dragging(&self) -> (b: bool)
        ensures
            b == (*self is Dragging),
    {
        match self {
            DragPhase::Idle => false,
            DragPhase::Dragging { .. } => true,
        }
    }

    /// Where the drag under way began, if there is one.
    pub open spec fn origin(self) -> Option<Point2D> {
        match self {
            DragPhase::Dragging { start } => Some(start),
            DragPhase::Idle => None,
        }
    }

    /// The phase after a drag is reported to start at `at`.
    pub open spec fn begun(at: Option<Point2D>) -> DragPhase {
        match at {
            Some(p) => DragPhase::Dragging { start: p },
            None => DragPhase::Idle,
        }
    }

    /// The gesture that a release at `end` completes, if a drag is under way.
    pub open spec fn completed(self, end: Point2D) -> Option<DragGesture> {
        match self {
            DragPhase::Dragging { start } => Some(DragGesture { start, end }),
            DragPhase::Idle => None,
        }
    }

    /// The phase after the pointer reports the start of a drag. A drag that
    /// starts where the pointer has no position is not tracked; a drag that
    /// was under way is forgotten either way.
    pub fn begin(self, at: Option<Point2D>) -> (next: DragPhase)
        ensures
            next == DragPhase::begun(at),
    {
        match at {
            Some(p) => DragPhase::Dragging { start: p },
            None => DragPhase::Idle,
        }
    }

    /// The phase after the pointer is released at `end`, and the gesture
    /// that this completes, if a drag was under way. The phase is idle
    /// afterwards in every case.
    pub fn release(self, end: Point2D) -> (r: (DragPhase, Option<DragGesture>))
        ensures
            r.0 == DragPhase::Idle,
            r.1 == self.completed(end),
    {
        match self {
            DragPhase::Dragging { start } => (DragPhase::Idle, Some(DragGesture { start, end })),
            DragPhase::Idle => (DragPhase::Idle, None),
        }
    }
}

} // verus!
