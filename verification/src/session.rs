//! The state of a browsing session and the decisions taken on each event.
//!
//! The session knows how many images are listed, which one is on display,
//! its accumulated rotation and whether a drag is under way. Whoever runs
//! the window reports what happened as an [`Event`] and carries out the
//! [`Action`] that comes back.

use vstd::prelude::*;
use crate::angle::{free_drag_angle, line_drag_angle, RotationMode, RotationState, FREE_LIMIT};
use crate::fixed::{clamped, Fixed};
use crate::gesture::{DragGesture, DragPhase, Point2D};

verus! {

/// What a session holds, as mathematical values.
pub struct RotatorView {
    /// How many images the open directory lists.
    pub image_count: nat,
    /// The place in the listing of the image on display.
    pub current_image_idx: nat,
    /// The accumulated rotation, in millionths of a degree.
    pub angle: int,
    /// How drags are read.
    pub mode: RotationMode,
    /// Whether a drag is under way.
    pub drag: DragPhase,
}

/// What is kept of a session from one run of the program to the next.
#[derive(Clone, Copy, Debug, PartialEq, Eq, Structural)]
pub struct SavedSession {
    pub current_image_idx: usize,
    pub current_rotation: Fixed,
    pub rotation_mode: RotationMode,
}

/// Something that happened in the window.
#[derive(Clone, Copy, Debug, PartialEq, Eq, Structural)]
pub enum Event {
    /// The key for the image before was released.
    PreviousImage,
    /// The key for the image after was released.
    NextImage,
    /// The entry at this place of the listing was clicked.
    ImageClicked(usize),
    /// The directory was read again and lists this many images.
    DirectoryListed(usize),
    /// The rotation is to be put back to nothing.
    ResetRotation,
    /// A mode was chosen.
    ModeChosen(RotationMode),
    /// The image was dragged this many pixels downward since the last report.
    Dragged(Fixed),
    /// A drag began on the image, at this position if the pointer has one.
    DragStarted(Option<Point2D>),
    /// The drag on the image was released at this position.
    DragReleased(Point2D),
    /// The direction asked for by [`Action::MeasureDirection`], in degrees
    /// from -180 to 180.
    DirectionMeasured(Fixed),
    /// The rotation is to be written to the sidecar file.
    ApplyRotation,
}

/// What is to be done after an event.
#[derive(Clone, Copy, Debug, PartialEq, Eq, Structural)]
pub enum Action {
    /// Nothing.
    Nothing,
    /// Measure the direction of the reversed vector of this gesture and
    /// report it as [`Event::DirectionMeasured`].
    MeasureDirection(DragGesture),
    /// Take `delta` off the rotation recorded in the sidecar file of the
    /// image at `image_idx`.
    RewriteSidecar { image_idx: usize, delta: Fixed },
}

impl RotatorView {
    /// Whether the listing holds the image on display.
    pub open spec fn has_image(self) -> bool {
        self.current_image_idx < self.image_count
    }

    /// The session before anything happened.
    pub open spec fn initial() -> RotatorView {
        RotatorView {
            image_count: 0,
            current_image_idx: 0,
            angle: 0,
            mode: RotationMode::Line,
            drag: DragPhase::Idle,
        }
    }

    /// The session that continues what was saved.
    pub open spec fn resumed(saved: SavedSession) -> RotatorView {
        RotatorView {
            image_count: 0,
            current_image_idx: saved.current_image_idx as nat,
            angle: match saved.rotation_mode {
                RotationMode::Line => saved.current_rotation@,
                RotationMode::Free => clamped(
                    saved.current_rotation@,
                    -FREE_LIMIT,
                    FREE_LIMIT as int,
                ),
            },
            mode: saved.rotation_mode,
            drag: DragPhase::Idle,
        }
    }

    /// The session that starts from what was saved, if anything was.
    pub open spec fn starting(saved: Option<SavedSession>) -> RotatorView {
        match saved {
            Some(s) => RotatorView::resumed(s),
            None => RotatorView::initial(),
        }
    }

    /// The session as it is found again after it was saved: the same image,
    /// rotation and mode, nothing listed and no drag under way.
    pub open spec fn at_rest(self) -> RotatorView {
        RotatorView { image_count: 0, drag: DragPhase::Idle, ..self }
    }

    /// The session with the image at `idx` on display: no rotation yet and no
    /// drag under way.
    pub open spec fn selected(self, idx: nat) -> RotatorView {
        RotatorView { current_image_idx: idx, angle: 0, drag: DragPhase::Idle, ..self }
    }

    /// The session with another mode. Entering free mode brings the angle
    /// within 45 degrees either way.
    pub open spec fn in_mode(self, mode: RotationMode) -> RotatorView {
        RotatorView {
            mode,
            angle: match mode {
                RotationMode::Line => self.angle,
                RotationMode::Free => clamped(self.angle, -FREE_LIMIT, FREE_LIMIT as int),
            },
            ..self
        }
    }

    /// The session after `event`.
    pub open spec fn after(self, event: Event) -> RotatorView {
        match event {
            Event::PreviousImage => if 0 < self.current_image_idx && self.current_image_idx - 1
                < self.image_count {
                self.selected((self.current_image_idx - 1) as nat)
            } else {
                self
            },
            Event::NextImage => if self.current_image_idx + 1 < self.image_count {
                self.selected(self.current_image_idx + 1)
            } else {
                self
            },
            Event::ImageClicked(idx) => self.selected(idx as nat),
            Event::DirectoryListed(count) => RotatorView {
                image_count: count as nat,
                ..self.selected(self.current_image_idx)
            },
            Event::ResetRotation => RotatorView { angle: 0, ..self },
            Event::ModeChosen(mode) => self.in_mode(mode),
            Event::Dragged(delta_y) => if self.has_image() && self.mode == RotationMode::Free {
                RotatorView { angle: free_drag_angle(self.angle, delta_y@), ..self }
            } else {
                self
            },
            Event::DragStarted(at) => if self.has_image() && self.mode == RotationMode::Line {
                RotatorView { drag: DragPhase::begun(at), ..self }
            } else {
                self
            },
            Event::DragReleased(_) => if self.has_image() && self.mode == RotationMode::Line {
                RotatorView { drag: DragPhase::Idle, ..self }
            } else {
                self
            },
            Event::DirectionMeasured(raw) => if self.mode == RotationMode::Line {
                RotatorView { angle: line_drag_angle(self.angle, raw@), ..self }
            } else {
                self
            },
            Event::ApplyRotation => self,
        }
    }

    /// What is to be done when `event` reaches the session.
    pub open spec fn action_on(self, event: Event) -> Action {
        match event {
            Event::DragReleased(end) => if self.has_image() && self.mode == RotationMode::Line {
                match self.drag.completed(end) {
                    Some(gesture) => Action::MeasureDirection(gesture),
                    None => Action::Nothing,
                }
            } else {
                Action::Nothing
            },
            Event::ApplyRotation => if self.has_image() {
                Action::RewriteSidecar {
                    image_idx: self.current_image_idx as usize,
                    delta: Fixed::nearest(self.angle),
                }
            } else {
                Action::Nothing
            },
            _ => Action::Nothing,
        }
    }
}

/// A browsing session.
#[derive(Debug)]
pub struct RtImageRotator {
    image_count: usize,
    current_image_idx: usize,
    rotation: RotationState,
    drag: DragPhase,
}

impl View for RtImageRotator {
    type V = RotatorView;

    closed spec fn view(&self) -> RotatorView {
        RotatorView {
            image_count: self.image_count as nat,
            current_image_idx: self.current_image_idx as nat,
            angle: self.rotation.angle(),
            mode: self.rotation.mode(),
            drag: self.drag,
        }
    }
}

impl Default for RtImageRotator {
    /// The session before anything happened: nothing listed, line mode.
    fn default() -> (r: RtImageRotator)
        ensures
            r@ == RotatorView::initial(),
    {
        RtImageRotator {
            image_count: 0,
            current_image_idx: 0,
            rotation: RotationState::reset(RotationMode::Line),
            drag: DragPhase::Idle,
        }
    }
}

impl RtImageRotator {
    /// The session to start with: the one that was saved, if any, with
    /// nothing listed yet.
    pub fn new(saved: Option<SavedSession>) -> (r: RtImageRotator)
        ensures
            r@ == RotatorView::starting(saved),
    {
        match saved {
            Some(s) => RtImageRotator {
                image_count: 0,
                current_image_idx: s.current_image_idx,
                rotation: RotationState::restore(s.current_rotation, s.rotation_mode),
                drag: DragPhase::Idle,
            },
            None => RtImageRotator {
                image_count: 0,
                current_image_idx: 0,
                rotation: RotationState::reset(RotationMode::Line),
                drag: DragPhase::Idle,
            },
        }
    }

    /// What to keep of the session for the next run.
    pub fn saved(&self) -> (s: SavedSession)
        ensures
            s.current_image_idx == self@.current_image_idx,
            s.current_rotation@ == self@.angle,
            s.rotation_mode == self@.mode,
            RotatorView::resumed(s) == self@.at_rest(),
    {
        SavedSession {
            current_image_idx: self.current_image_idx,
            current_rotation: self.rotation.accumulated_degrees(),
            rotation_mode: self.rotation.rotation_mode(),
        }
    }

    /// How many images are listed.
    pub fn image_count(&self) -> (n: usize)
        ensures
            n == self@.image_count,
    {
        self.image_count
    }

    /// The place in the listing of the image on display.
    pub fn current_image_idx(&self) -> (idx: usize)
        ensures
            idx == self@.current_image_idx,
    {
        self.current_image_idx
    }

    /// The place of the image on display, if the listing holds it.
    pub fn current_image(&self) -> (r: Option<usize>)
        ensures
            r.is_some() == self@.has_image(),
            r matches Some(idx) ==> idx == self@.current_image_idx,
    {
        if self.current_image_idx < self.image_count {
            Some(self.current_image_idx)
        } else {
            None
        }
    }

    /// The accumulated rotation. In free mode it lies within 45 degrees
    /// either way.
    pub fn current_rotation(&self) -> (a: Fixed)
        ensures
            a@ == self@.angle,
            self@.mode == RotationMode::Free ==> -FREE_LIMIT <= a@ <= FREE_LIMIT,
    {
        self.rotation.accumulated_degrees()
    }

    /// How drags are read.
    pub fn rotation_mode(&self) -> (m: RotationMode)
        ensures
            m == self@.mode,
    {
        self.rotation.rotation_mode()
    }

    /// Where the drag under way began, if there is one.
    pub fn drag_start(&self) -> (p: Option<Point2D>)
        ensures
            p == self@.drag.origin(),
    {
        match self.drag {
            DragPhase::Dragging { start } => Some(start),
            DragPhase::Idle => None,
        }
    }

    /// Puts the image at `image_idx` on display. Its rotation starts at
    /// nothing, whatever was accumulated before, and a drag under way is
    /// dropped.
    pub fn select_image(&mut self, image_idx: usize)
        ensures
            final(self)@ == old(self)@.selected(image_idx as nat),
            final(self)@.angle == 0,
    {
        self.current_image_idx = image_idx;
        self.rotation = RotationState::reset(self.rotation.rotation_mode());
        self.drag = DragPhase::Idle;
    }

    /// Takes `event` into the session and says what is to be done for it.
    pub fn handle(&mut self, event: Event) -> (action: Action)
        ensures
            final(self)@ == old(self)@.after(event),
            action == old(self)@.action_on(event),
    {
        let shown: bool = self.current_image_idx < self.image_count;
        let mode: RotationMode = self.rotation.rotation_mode();
        match event {
            Event::PreviousImage => {
                if self.current_image_idx > 0 && self.current_image_idx - 1 < self.image_count {
                    self.select_image(self.current_image_idx - 1);
                }
                Action::Nothing
            },
            Event::NextImage => {
                if self.current_image_idx < self.image_count && self.current_image_idx + 1
                    < self.image_count {
                    self.select_image(self.current_image_idx + 1);
                }
                Action::Nothing
            },
            Event::ImageClicked(idx) => {
                self.select_image(idx);
                Action::Nothing
            },
            Event::DirectoryListed(count) => {
                self.image_count = count;
                self.select_image(self.current_image_idx);
                Action::Nothing
            },
            Event::ResetRotation => {
                self.rotation = RotationState::reset(mode);
                Action::Nothing
            },
            Event::ModeChosen(chosen) => {
                self.rotation = self.rotation.with_mode(chosen);
                Action::Nothing
            },
            Event::Dragged(delta_y) => {
                if shown && mode == RotationMode::Free {
                    self.rotation = self.rotation.apply_free_drag(delta_y);
                }
                Action::Nothing
            },
            Event::DragStarted(at) => {
                if shown && mode == RotationMode::Line {
                    self.drag = self.drag.begin(at);
                }
                Action::Nothing
            },
            Event::DragReleased(end) => {
                if shown && mode == RotationMode::Line {
                    let (phase, gesture) = self.drag.release(end);
                    self.drag = phase;
                    match gesture {
                        Some(g) => Action::MeasureDirection(g),
                        None => Action::Nothing,
                    }
                } else {
                    Action::Nothing
                }
            },
            Event::DirectionMeasured(raw) => {
                if mode == RotationMode::Line {
                    self.rotation = self.rotation.apply_line_drag(raw);
                }
                Action::Nothing
            },
            Event::ApplyRotation => {
                if shown {
                    Action::RewriteSidecar {
                        image_idx: self.current_image_idx,
                        delta: self.rotation.accumulated_degrees(),
                    }
                } else {
                    Action::Nothing
                }
            },
        }
    }
}

} // verus!
