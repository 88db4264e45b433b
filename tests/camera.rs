use moksha::viewport::{CameraModes, CanvasEvent, MouseButton, ProjectionType, ZoomStep};

#[test]
fn modes_follow_gestures() {
    let mut m = CameraModes::new();
    assert!(!m.rotating() && !m.zooming());
    assert_eq!(m.button(), Some(MouseButton::LEFT));
    m.on_canvas_event(CanvasEvent::Grab);
    assert!(m.rotating() && !m.zooming());
    m.on_canvas_event(CanvasEvent::Zoom);
    assert!(m.rotating() && m.zooming());
    m.on_canvas_event(CanvasEvent::Other);
    assert!(m.rotating() && m.zooming());
    m.on_canvas_event(CanvasEvent::Point);
    assert!(!m.rotating() && !m.zooming());
}

#[test]
fn zoom_steps_only_while_zooming() {
    let mut m = CameraModes::new();
    assert_eq!(m.zoom_step(1), ZoomStep::Keep);
    m.enable_zoom();
    assert_eq!(m.zoom_step(3), ZoomStep::Grow);
    assert_eq!(m.zoom_step(-1), ZoomStep::Shrink);
    assert_eq!(m.zoom_step(0), ZoomStep::Keep);
    m.disable_zoom();
    assert_eq!(m.zoom_step(-1), ZoomStep::Keep);
}

#[test]
fn projection_toggles() {
    let mut m = CameraModes::new();
    assert_eq!(m.projection_type(), ProjectionType::Perspective);
    assert!(!m.needs_ortho_refresh());
    m.switch_projection();
    assert_eq!(m.projection_type(), ProjectionType::Orthographic);
    assert!(m.needs_ortho_refresh());
    m.switch_projection();
    assert_eq!(m.projection_type(), ProjectionType::Perspective);
    m.enable_rotation();
    m.disable_rotation();
    assert!(!m.rotating());
}
