//! Routing of window events while a split divider may be dragged.
//!
//! A drag captures the whole pointer sequence: once it has started, motion, buttons and the
//! wheel belong to the drag, including the release after a cancellation, so none of them
//! reaches a terminal pane.

use vstd::prelude::*;

verus! {

/// What a window event does to a divider drag.
#[derive(Clone, Copy, Debug, PartialEq, Eq, Structural)]
pub enum DragEvent {
    /// The chrome lost focus or changed geometry: the drag ends where it is.
    End,
    /// Escape was pressed: the layout returns to where the drag started.
    Restore,
    /// The pointer moved during the drag.
    Move,
    /// The left button was released during the drag.
    Release,
    /// The left button was pressed: a drag may start.
    Start,
    /// The drag consumes the event.
    Swallow,
    /// The event is none of the drag's business.
    Pass,
}

/// The window events that matter to a drag, with what of them matters.
#[derive(Clone, Copy, Debug, PartialEq, Eq, Structural)]
pub enum WindowEventKind {
    FocusLost,
    FocusGained,
    Resized,
    ScaleFactorChanged,
    Key { escape: bool, pressed: bool },
    CursorMoved,
    MouseButton { left: bool, pressed: bool },
    MouseWheel,
    CursorLeft,
    Other,
}

/// A key during a drag: Escape restores the layout when pressed and is swallowed when
/// released; every other key, and Escape outside a drag, passes.
pub fn drag_key(escape: bool, pressed: bool, captured: bool) -> (r: DragEvent)
    ensures
        r == if captured && escape {
            if pressed {
                DragEvent::Restore
            } else {
                DragEvent::Swallow
            }
        } else {
            DragEvent::Pass
        },
{
    if captured && escape {
        if pressed {
            DragEvent::Restore
        } else {
            DragEvent::Swallow
        }
    } else {
        DragEvent::Pass
    }
}

/// How a window event is routed. `chrome` tells whether it reached the chrome window (rather
/// than a pane), `captured` whether a drag holds the pointer.
pub open spec fn drag_decision(event: WindowEventKind, chrome: bool, captured: bool) -> DragEvent {
    match event {
        WindowEventKind::FocusLost | WindowEventKind::Resized
        | WindowEventKind::ScaleFactorChanged => if chrome {
            DragEvent::End
        } else {
            DragEvent::Pass
        },
        WindowEventKind::Key { escape, pressed } => if captured && escape {
            if pressed {
                DragEvent::Restore
            } else {
                DragEvent::Swallow
            }
        } else {
            DragEvent::Pass
        },
        WindowEventKind::CursorMoved => if captured {
            DragEvent::Move
        } else {
            DragEvent::Pass
        },
        WindowEventKind::MouseButton { left, pressed } => if left && !pressed && captured {
            DragEvent::Release
        } else if left && pressed {
            DragEvent::Start
        } else if captured {
            DragEvent::Swallow
        } else {
            DragEvent::Pass
        },
        WindowEventKind::MouseWheel | WindowEventKind::CursorLeft => if captured {
            DragEvent::Swallow
        } else {
            DragEvent::Pass
        },
        WindowEventKind::FocusGained | WindowEventKind::Other => DragEvent::Pass,
    }
}

/// Route a window event (see [`drag_decision`]).
pub fn drag_event(event: WindowEventKind, chrome: bool, captured: bool) -> (r: DragEvent)
    ensures
        r == drag_decision(event, chrome, captured),
{
    match event {
        WindowEventKind::FocusLost | WindowEventKind::Resized
        | WindowEventKind::ScaleFactorChanged => {
            if chrome {
                DragEvent::End
            } else {
                DragEvent::Pass
            }
        },
        WindowEventKind::Key { escape, pressed } => drag_key(escape, pressed, captured),
        WindowEventKind::CursorMoved => {
            if captured {
                DragEvent::Move
            } else {
                DragEvent::Pass
            }
        },
        WindowEventKind::MouseButton { left, pressed } => {
            if left && !pressed && captured {
                DragEvent::Release
            } else if left && pressed {
                DragEvent::Start
            } else if captured {
                DragEvent::Swallow
            } else {
                DragEvent::Pass
            }
        },
        WindowEventKind::MouseWheel | WindowEventKind::CursorLeft => {
            if captured {
                DragEvent::Swallow
            } else {
                DragEvent::Pass
            }
        },
        WindowEventKind::FocusGained | WindowEventKind::Other => DragEvent::Pass,
    }
}

/// While a drag holds the pointer, no pointer event reaches a pane: motion, every button,
/// the wheel and the pointer leaving are all taken by the drag.
pub proof fn lemma_captured_pointer_never_passes(event: WindowEventKind, chrome: bool)
    requires
        event is CursorMoved || event is MouseButton || event is MouseWheel || event is CursorLeft,
    ensures
        drag_decision(event, chrome, true) != DragEvent::Pass,
{
}

/// Outside a drag, only a left press (which may start one) and, on the chrome, a focus loss
/// or geometry change (which end one) concern the drag; every other event passes.
pub proof fn lemma_uncaptured_events_pass(event: WindowEventKind, chrome: bool)
    requires
        !(event matches WindowEventKind::MouseButton { left, pressed } && left && pressed),
        !(chrome && (event is FocusLost || event is Resized || event is ScaleFactorChanged)),
    ensures
        drag_decision(event, chrome, false) == DragEvent::Pass,
{
}

} // verus!
