use kitsune_rendercore::surface::{SurfaceEvent, SurfaceTable};

#[test]
fn unconfigured_surface_is_never_ready() {
    let mut t = SurfaceTable::for_outputs(&vec![10, 20]);
    assert!(t.ready_output_ids().is_empty());
    t.handle_event(SurfaceEvent::FrameDone { index: 0 });
    t.handle_event(SurfaceEvent::Closed { index: 0 });
    t.handle_event(SurfaceEvent::Configure { index: 1, width: 1920, height: 1080 });
    t.mark_presented(&vec![10]);
    t.handle_event(SurfaceEvent::FrameDone { index: 0 });
    assert_eq!(t.ready_output_ids(), vec![20]);
}

#[test]
fn configure_then_present_then_frame_done_cycle() {
    let mut t = SurfaceTable::for_outputs(&vec![10, 20]);
    assert!(t.handle_event(SurfaceEvent::Configure { index: 0, width: 2560, height: 1440 }));
    assert!(!t.handle_event(SurfaceEvent::Configure { index: 1, width: 0, height: 0 }));
    assert_eq!(t.ready_output_ids(), vec![10, 20]);
    assert_eq!(t.mark_presented(&vec![10, 20]), vec![0, 1]);
    assert!(t.ready_output_ids().is_empty());
    // a repaint request is already in flight: no second one
    assert!(t.mark_presented(&vec![10]).is_empty());
    t.handle_event(SurfaceEvent::FrameDone { index: 1 });
    assert_eq!(t.ready_output_ids(), vec![20]);
    assert!(!t.slot(1).repaint_pending);
    assert!(t.slot(0).repaint_pending);
}

#[test]
fn closed_surface_clears_its_state() {
    let mut t = SurfaceTable::for_outputs(&vec![7]);
    t.handle_event(SurfaceEvent::Configure { index: 0, width: 1, height: 1 });
    t.mark_presented(&vec![7]);
    t.handle_event(SurfaceEvent::Closed { index: 0 });
    let s = t.slot(0);
    assert!(!s.configured && !s.needs_redraw && !s.repaint_pending);
    t.handle_event(SurfaceEvent::FrameDone { index: 0 });
    assert!(t.ready_output_ids().is_empty());
}

#[test]
fn events_for_unknown_surfaces_are_ignored() {
    let mut t = SurfaceTable::for_outputs(&vec![7]);
    assert!(!t.handle_event(SurfaceEvent::Configure { index: 3, width: 10, height: 10 }));
    assert!(t.ready_output_ids().is_empty());
    assert_eq!(t.len(), 1);
}
