use shell::surface::{repaint_plan, DrawEnd, DrawStart, Redraw, Repaint, Surface};

#[test]
fn first_redraw_asks_to_be_mapped_once() {
    let mut s = Surface::new();
    assert_eq!(s.request_redraw(true), Redraw::CommitToMap);
    assert!(s.map_requested);
    assert_eq!(s.request_redraw(true), Redraw::Wait);
}

#[test]
fn hidden_app_is_not_mapped() {
    let mut s = Surface::new();
    assert_eq!(s.request_redraw(false), Redraw::Wait);
    assert!(!s.map_requested);
}

#[test]
fn configure_then_draw_maps_the_surface() {
    let mut s = Surface::new();
    s.request_redraw(true);
    s.configure(640, 0);
    assert_eq!((s.width, s.height), (640, 0));
    assert_eq!(s.begin_draw(true, true), DrawStart::Skip);
    s.configure(0, 400);
    assert_eq!((s.width, s.height), (640, 400));
    assert_eq!(s.begin_draw(true, false), DrawStart::Skip);
    assert_eq!(s.begin_draw(true, true), DrawStart::Render);
    assert!(s.frame_pending);
    assert_eq!(s.end_draw(true, false), DrawEnd::Presented);
    assert!(s.mapped && !s.map_requested && !s.dirty);
    assert_eq!(s.request_redraw(true), Redraw::Wait);
    assert!(s.frame());
    assert_eq!(s.request_redraw(true), Redraw::RequestFrame);
    assert_eq!(s.request_redraw(true), Redraw::Wait);
}

#[test]
fn failed_presents_are_retried() {
    let mut s = Surface::new();
    s.configure(10, 10);
    s.begin_draw(true, true);
    assert_eq!(s.end_draw(false, false), DrawEnd::RetrySoon);
    assert!(!s.frame_pending && s.dirty);
    s.begin_draw(true, true);
    s.end_draw(true, false);
    s.begin_draw(true, true);
    assert_eq!(s.end_draw(false, false), DrawEnd::CommitAndRetry);
    assert!(s.dirty);
    assert_eq!(s.end_draw(true, true), DrawEnd::Exit);
}

#[test]
fn hiding_unmaps() {
    let mut s = Surface::new();
    s.configure(10, 10);
    s.begin_draw(true, true);
    s.end_draw(true, false);
    assert_eq!(s.begin_draw(false, true), DrawStart::Unmap);
    assert!(!s.mapped && !s.configured && !s.frame_pending && !s.dirty);
    assert_eq!(s.request_redraw(true), Redraw::CommitToMap);
}

#[test]
fn scale_changes_the_buffer() {
    let mut s = Surface::new();
    s.configure(100, 30);
    assert!(!s.set_scale(1));
    assert!(s.set_scale(2));
    assert_eq!(s.buffer_size(), (200, 60));
}

#[test]
fn repaint_delays() {
    assert_eq!(repaint_plan(0), Repaint::Now);
    assert_eq!(repaint_plan(16_000_000), Repaint::After(16_000_000));
    assert_eq!(repaint_plan(60_000_000_000), Repaint::After(60_000_000_000));
    assert_eq!(repaint_plan(60_000_000_001), Repaint::Never);
}
