use lmmp::ui::{ui_step, Flow, UiEvent, UiStep};

fn step(flow: Flow, update_frame_time: bool, redraw: bool, resize: bool, process: Option<bool>) -> UiStep {
    UiStep { flow, update_frame_time, redraw, resize, process }
}

#[test]
fn ui_steps() {
    assert_eq!(ui_step(UiEvent::NewEvents), step(Flow::Wait, true, false, false, None));
    assert_eq!(ui_step(UiEvent::Redraw), step(Flow::Wait, false, true, false, None));
    assert_eq!(
        ui_step(UiEvent::Resized { wayland: true }),
        step(Flow::Wait, false, false, true, Some(true))
    );
    assert_eq!(
        ui_step(UiEvent::Resized { wayland: false }),
        step(Flow::Wait, false, false, false, Some(true))
    );
    assert_eq!(ui_step(UiEvent::CloseRequested), step(Flow::Exit, false, false, false, Some(true)));
    assert_eq!(ui_step(UiEvent::OtherWindow), step(Flow::Wait, false, false, false, Some(true)));
    assert_eq!(ui_step(UiEvent::Device), step(Flow::Wait, false, false, false, Some(true)));
    assert_eq!(ui_step(UiEvent::Other), step(Flow::Wait, false, false, false, Some(false)));
}
