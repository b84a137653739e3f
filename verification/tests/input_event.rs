use bettertui_engine::input::clipboard::ClipboardInput;
use bettertui_engine::input::event::{InputEvent, InputEventType};
use bettertui_engine::input::key::{KeyModifiers, KeyboardInput};
use bettertui_engine::input::mouse::{MouseButtons, MouseInput};

#[test]
fn input_event_new() {
    let event = InputEvent::new(InputEventType::Focus);
    assert!(event.is_focus());
}

#[test]
fn input_event_default() {
    let event = InputEvent::default();
    assert!(event.is_focus());
}

#[test]
fn input_event_keyboard() {
    let input = KeyboardInput::new('a', KeyModifiers::empty());
    let event = InputEvent::keyboard(input);
    assert!(event.is_keyboard());
}

#[test]
fn input_event_mouse() {
    let input = MouseInput::new(0, 0, MouseButtons::empty());
    let event = InputEvent::mouse(input);
    assert!(event.is_mouse());
}

#[test]
fn input_event_clipboard() {
    let input = ClipboardInput::copy("hello".to_string());
    let event = InputEvent::clipboard(input);
    assert!(event.is_clipboard());
}

#[test]
fn input_event_resize() {
    let event = InputEvent::resize(80, 24);
    assert!(event.is_resize());
}

#[test]
fn input_event_focus() {
    let event = InputEvent::focus();
    assert!(event.is_focus());
}

#[test]
fn input_event_blur() {
    let event = InputEvent::blur();
    assert!(event.is_blur());
}

#[test]
fn input_event_paste() {
    let event = InputEvent::paste("hello".to_string());
    assert!(event.is_paste());
}
