use voxel_core::input::{Action, Direction3, Event, Input, InputHandler};

const W: u32 = 32;
const S: u32 = 28;

fn handler() -> InputHandler {
    InputHandler::new(vec![
        (Input::Scroll, Action::Select),
        (Input::Button(1), Action::Place),
        (Input::Button(0), Action::Focus),
        (Input::Press(W), Action::Walk(Direction3::Forward)),
        (Input::Release(W), Action::Stop(Direction3::Forward)),
        (Input::Press(S), Action::Walk(Direction3::Backward)),
        (Input::Motion, Action::Turn),
    ])
}

fn key(code: u32, pressed: bool) -> Event {
    Event::Key { code, pressed }
}

#[test]
fn a_bound_input_gives_its_action() {
    let h = handler();
    assert_eq!(h.bound(Input::Scroll), Action::Select);
    assert_eq!(h.bound(Input::Button(1)), Action::Place);
    assert_eq!(h.bound(Input::Press(W)), Action::Walk(Direction3::Forward));
    assert_eq!(h.bound(Input::Release(W)), Action::Stop(Direction3::Forward));
    assert_eq!(h.bound(Input::Motion), Action::Turn);
}

#[test]
fn an_unbound_input_gives_nothing() {
    let h = handler();
    assert_eq!(h.bound(Input::Release(S)), Action::Nop);
    assert_eq!(h.bound(Input::Button(2)), Action::Nop);
    assert_eq!(h.bound(Input::Press(0)), Action::Nop);
    assert_eq!(InputHandler::new(vec![]).bound(Input::Scroll), Action::Nop);
}

#[test]
fn the_last_binding_of_an_input_counts() {
    let h = InputHandler::new(vec![
        (Input::Scroll, Action::Select),
        (Input::Press(1), Action::Pause),
        (Input::Scroll, Action::Fullscreen),
    ]);
    assert_eq!(h.bound(Input::Scroll), Action::Fullscreen);
    assert_eq!(h.bound(Input::Press(1)), Action::Pause);
}

#[test]
fn inputs_with_the_same_code_are_kept_apart() {
    let h = InputHandler::new(vec![
        (Input::Press(7), Action::Place),
        (Input::Release(7), Action::Select),
        (Input::Button(7), Action::Pause),
        (Input::Press(u32::MAX), Action::Focus),
        (Input::Release(0), Action::Turn),
        (Input::Button(u32::MAX), Action::ExitGame),
    ]);
    assert_eq!(h.bound(Input::Press(7)), Action::Place);
    assert_eq!(h.bound(Input::Release(7)), Action::Select);
    assert_eq!(h.bound(Input::Button(7)), Action::Pause);
    assert_eq!(h.bound(Input::Press(u32::MAX)), Action::Focus);
    assert_eq!(h.bound(Input::Release(0)), Action::Turn);
    assert_eq!(h.bound(Input::Button(u32::MAX)), Action::ExitGame);
    assert_eq!(h.bound(Input::Scroll), Action::Nop);
    assert_eq!(h.bound(Input::Motion), Action::Nop);
}

#[test]
fn a_key_acts_once_while_held() {
    let mut h = handler();
    assert!(!h.is_held(W));
    assert_eq!(h.handle_window(key(W, true)), Action::Walk(Direction3::Forward));
    assert!(h.is_held(W));
    assert_eq!(h.handle_window(key(W, true)), Action::Nop);
    assert_eq!(h.handle_window(key(W, true)), Action::Nop);
    assert_eq!(h.handle_window(key(W, false)), Action::Stop(Direction3::Forward));
    assert!(!h.is_held(W));
    assert_eq!(h.handle_window(key(W, false)), Action::Nop);
    assert_eq!(h.handle_window(key(W, true)), Action::Walk(Direction3::Forward));
}

#[test]
fn an_unbound_key_is_still_tracked() {
    let mut h = handler();
    assert_eq!(h.handle_window(key(99, true)), Action::Nop);
    assert!(h.is_held(99));
    assert_eq!(h.handle_window(key(S, true)), Action::Walk(Direction3::Backward));
    assert_eq!(h.handle_window(key(S, false)), Action::Nop);
    assert!(!h.is_held(S));
    assert!(h.is_held(99));
}

#[test]
fn window_events_have_fixed_answers() {
    let mut h = handler();
    assert_eq!(
        h.handle_window(Event::Resized { width: 800, height: 600 }),
        Action::Resize { width: 800, height: 600 }
    );
    assert_eq!(h.handle_window(Event::Focused(true)), Action::Focus);
    assert_eq!(h.handle_window(Event::Focused(false)), Action::Pause);
    assert_eq!(h.handle_window(Event::CloseRequested), Action::ExitGame);
    assert_eq!(h.handle_window(Event::Other), Action::Nop);
}

#[test]
fn buttons_and_the_wheel_go_by_their_bindings() {
    let mut h = handler();
    assert_eq!(h.handle_window(Event::Button(1)), Action::Place);
    assert_eq!(h.handle_window(Event::Button(0)), Action::Focus);
    assert_eq!(h.handle_window(Event::Button(5)), Action::Nop);
    assert_eq!(h.handle_window(Event::Wheel), Action::Select);
}

#[test]
fn motion_is_an_event_of_the_device() {
    let mut h = handler();
    assert_eq!(h.handle_device(Event::Motion), Action::Turn);
    assert_eq!(h.handle_window(Event::Motion), Action::Nop);
    assert_eq!(h.handle_device(Event::Wheel), Action::Nop);
    assert_eq!(h.handle_device(key(W, true)), Action::Nop);
    assert!(!h.is_held(W));
}

#[test]
fn walking_directions_have_unit_vectors() {
    assert_eq!(Direction3::Forward.unit_vector(), [0, 1, 0]);
    assert_eq!(Direction3::Backward.unit_vector(), [0, -1, 0]);
    assert_eq!(Direction3::Left.unit_vector(), [-1, 0, 0]);
    assert_eq!(Direction3::Right.unit_vector(), [1, 0, 0]);
    assert_eq!(Direction3::Up.unit_vector(), [0, 0, 1]);
    assert_eq!(Direction3::Down.unit_vector(), [0, 0, -1]);
}

#[test]
fn the_default_action_is_nothing() {
    assert_eq!(Action::default(), Action::Nop);
}
