use vstd::prelude::*;

verus! {

/// Three-button mouse.
#[derive(Clone, Copy, Debug, PartialEq, Eq, Structural)]
pub enum MouseButton {
    LEFT,
    MIDDLE,
    RIGHT,
}

/// Orthographic or perspective projection.
#[derive(Clone, Copy, Debug, PartialEq, Eq, Structural)]
pub enum ProjectionType {
    Orthographic,
    Perspective,
}

/// Gestures on the canvas that switch the camera's modes.
#[derive(Clone, Copy, Debug, PartialEq, Eq, Structural)]
pub enum CanvasEvent {
    /// Grab: start orbiting.
    Grab,
    /// Wheel or drag: start zooming.
    Zoom,
    /// Release: back to idle.
    Point,
    /// Anything else: no change.
    Other,
}

/// What a zoom delta does to the camera's distance to its target.
#[derive(Clone, Copy, Debug, PartialEq, Eq, Structural)]
pub enum ZoomStep {
    /// Nothing: zooming is off, or the delta is zero.
    Keep,
    /// Multiply the distance by the growth factor (about 1.05).
    Grow,
    /// Multiply the distance by the shrink factor (about 0.95).
    Shrink,
}

/// The camera's modes: whether it orbits, whether it zooms, which
/// projection it uses, and the mouse button that drives it. Rotating and
/// zooming change only through explicit enable and disable calls.
#[derive(Clone, Copy, Debug, PartialEq, Eq, Structural)]
pub struct CameraModes {
    pub rotate: bool,
    pub zoom: bool,
    pub projection: ProjectionType,
    pub button: Option<MouseButton>,
}

impl CameraModes {
    /// Idle, in perspective, driven by the left button.
    pub fn new() -> (r: CameraModes)
        ensures
            !r.rotate,
            !r.zoom,
            r.projection == ProjectionType::Perspective,
            r.button == Some(MouseButton::LEFT),
    {
        CameraModes {
            rotate: false,
            zoom: false,
            projection: ProjectionType::Perspective,
            button: Some(MouseButton::LEFT),
        }
    }

    pub fn rotating(&self) -> (r: bool)
        ensures
            r == self.rotate,
    {
        self.rotate
    }

    pub fn zooming(&self) -> (r: bool)
        ensures
            r == self.zoom,
    {
        self.zoom
    }

    pub fn enable_rotation(&mut self)
        ensures
            *final(self) == (CameraModes { rotate: true, ..*old(self) }),
    {
        self.rotate = true;
    }

    pub fn disable_rotation(&mut self)
        ensures
            *final(self) == (CameraModes { rotate: false, ..*old(self) }),
    {
        self.rotate = false;
    }

    pub fn enable_zoom(&mut self)
        ensures
            *final(self) == (CameraModes { zoom: true, ..*old(self) }),
    {
        self.zoom = true;
    }

    pub fn disable_zoom(&mut self)
        ensures
            *final(self) == (CameraModes { zoom: false, ..*old(self) }),
    {
        self.zoom = false;
    }

    pub fn projection_type(&self) -> (r: ProjectionType)
        ensures
            r == self.projection,
    {
        self.projection
    }

    pub fn button(&self) -> (r: Option<MouseButton>)
        ensures
            r == self.button,
    {
        self.button
    }

    /// Toggles between perspective and orthographic projection.
    pub fn switch_projection(&mut self)
        ensures
            final(self).projection == match old(self).projection {
                ProjectionType::Perspective => ProjectionType::Orthographic,
                ProjectionType::Orthographic => ProjectionType::Perspective,
            },
            final(self).rotate == old(self).rotate,
            final(self).zoom == old(self).zoom,
            final(self).button == old(self).button,
    {
        self.projection = match self.projection {
            ProjectionType::Perspective => ProjectionType::Orthographic,
            ProjectionType::Orthographic => ProjectionType::Perspective,
        };
    }

    /// Grab starts orbiting, a zoom gesture starts zooming, a release stops
    /// both; other events change nothing.
    pub fn on_canvas_event(&mut self, event: CanvasEvent)
        ensures
            final(self).projection == old(self).projection,
            final(self).button == old(self).button,
            final(self).rotate == match event {
                CanvasEvent::Grab => true,
                CanvasEvent::Point => false,
                _ => old(self).rotate,
            },
            final(self).zoom == match event {
                CanvasEvent::Zoom => true,
                CanvasEvent::Point => false,
                _ => old(self).zoom,
            },
    {
        match event {
            CanvasEvent::Grab => self.enable_rotation(),
            CanvasEvent::Zoom => self.enable_zoom(),
            CanvasEvent::Point => {
                self.disable_zoom();
                self.disable_rotation();
            },
            CanvasEvent::Other => {},
        }
    }

    /// What a zoom delta of sign `direction` (negative, zero or positive)
    /// does: nothing unless zooming is on and the delta is not zero.
    pub fn zoom_step(&self, direction: i32) -> (r: ZoomStep)
        ensures
            r == if !self.zoom || direction == 0 {
                ZoomStep::Keep
            } else if direction > 0 {
                ZoomStep::Grow
            } else {
                ZoomStep::Shrink
            },
    {
        if !self.zoom || direction == 0 {
            ZoomStep::Keep
        } else if direction > 0 {
            ZoomStep::Grow
        } else {
            ZoomStep::Shrink
        }
    }

    /// Whether the orthographic half-extents must be derived again from the
    /// distance to the target after the view changed (zoom or reset): only
    /// in orthographic projection.
    pub fn needs_ortho_refresh(&self) -> (r: bool)
        ensures
            r == (self.projection == ProjectionType::Orthographic),
    {
        match self.projection {
            ProjectionType::Orthographic => true,
            ProjectionType::Perspective => false,
        }
    }
}

} // verus!
