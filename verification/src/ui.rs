//! What the window's event loop does with each event it receives.

use vstd::prelude::*;

verus! {

/// An event of the window's event loop, as far as the loop tells events apart.
#[derive(Debug, Clone, Copy, PartialEq, Eq, Structural)]
pub enum UiEvent {
    /// A new batch of events begins.
    NewEvents,
    /// The window asks to be redrawn.
    Redraw,
    /// The window was resized; `wayland` when it runs under Wayland.
    Resized { wayland: bool },
    /// The window is asked to close.
    CloseRequested,
    /// Any other event of the window.
    OtherWindow,
    /// An event of an input device.
    Device,
    /// Any other event.
    Other,
}

/// How the event loop goes on after an event.
#[derive(Debug, Clone, Copy, PartialEq, Eq, Structural)]
pub enum Flow {
    /// Wait for the next event.
    Wait,
    /// Leave the loop.
    Exit,
}

/// What the event loop does for one event.
#[derive(Debug, Clone, Copy, PartialEq, Eq, Structural)]
pub struct UiStep {
    pub flow: Flow,
    /// Measure the time since the last frame.
    pub update_frame_time: bool,
    /// Draw a frame.
    pub redraw: bool,
    /// Resize the GL surface to the window.
    pub resize: bool,
    /// Hand the event to the GUI, and whether to ask for a redraw after it.
    pub process: Option<bool>,
}

/// What the event loop does for the event `ev`.
pub fn ui_step(ev: UiEvent) -> (r: UiStep)
    ensures
        (r.flow == Flow::Exit) <==> (ev == UiEvent::CloseRequested),
        r.update_frame_time <==> ev == UiEvent::NewEvents,
        r.redraw <==> ev == UiEvent::Redraw,
        r.resize <==> ev == (UiEvent::Resized { wayland: true }),
        r.process == match ev {
            UiEvent::NewEvents | UiEvent::Redraw => None,
            UiEvent::Other => Some(false),
            _ => Some(true),
        },
{
    let mut step = UiStep {
        flow: Flow::Wait,
        update_frame_time: false,
        redraw: false,
        resize: false,
        process: None,
    };
    match ev {
        UiEvent::NewEvents => {
            step.update_frame_time = true;
        },
        UiEvent::Redraw => {
            step.redraw = true;
        },
        UiEvent::Resized { wayland } => {
            step.resize = wayland;
            step.process = Some(true);
        },
        UiEvent::CloseRequested => {
            step.flow = Flow::Exit;
            step.process = Some(true);
        },
        UiEvent::OtherWindow | UiEvent::Device => {
            step.process = Some(true);
        },
        UiEvent::Other => {
            step.process = Some(false);
        },
    }
    step
}

} // verus!
