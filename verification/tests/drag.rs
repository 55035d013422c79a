use vivida::drag::{drag_event, drag_key, DragEvent, WindowEventKind};

#[test]
fn captured_release_and_escape_do_not_reach_a_terminal_after_cancellation() {
    let release = WindowEventKind::MouseButton { left: true, pressed: false };
    assert_eq!(drag_event(release, false, true), DragEvent::Release);
    assert_eq!(drag_event(release, false, false), DragEvent::Pass);
    assert_eq!(drag_event(WindowEventKind::FocusLost, true, true), DragEvent::End);
    assert_eq!(drag_event(WindowEventKind::FocusLost, false, true), DragEvent::Pass);
    assert_eq!(drag_key(true, true, true), DragEvent::Restore);
    assert_eq!(drag_key(true, false, true), DragEvent::Swallow);
    assert_eq!(drag_key(true, true, false), DragEvent::Pass);
}

#[test]
fn drag_motion_stays_captured_outside_the_gap_but_pane_resizes_do_not_cancel_it() {
    let motion = WindowEventKind::CursorMoved;
    assert_eq!(drag_event(motion, true, true), DragEvent::Move);
    assert_eq!(drag_event(motion, false, true), DragEvent::Move);
    assert_eq!(drag_event(motion, true, false), DragEvent::Pass);
    assert_eq!(drag_event(WindowEventKind::Resized, true, true), DragEvent::End);
    assert_eq!(drag_event(WindowEventKind::Resized, false, true), DragEvent::Pass);
}

#[test]
fn a_left_press_may_start_a_drag_and_captured_buttons_are_swallowed() {
    let press = WindowEventKind::MouseButton { left: true, pressed: true };
    assert_eq!(drag_event(press, false, false), DragEvent::Start);
    let right = WindowEventKind::MouseButton { left: false, pressed: true };
    assert_eq!(drag_event(right, false, true), DragEvent::Swallow);
    assert_eq!(drag_event(right, false, false), DragEvent::Pass);
    assert_eq!(drag_event(WindowEventKind::MouseWheel, false, true), DragEvent::Swallow);
    assert_eq!(drag_key(false, true, true), DragEvent::Pass);
}
