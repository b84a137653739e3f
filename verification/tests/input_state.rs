use bettertui_engine::input::clipboard::{ClipboardAction, ClipboardInput};
use bettertui_engine::input::event::InputEventType;
use bettertui_engine::input::key::{KeyAction, KeyModifiers, KeyboardInput};
use bettertui_engine::input::state::{ClipboardState, InputRuntime, KeyboardState, MouseState, ScrollDirection};

#[test]
fn clipboard_state_registers() {
    let mut c = ClipboardState::new();
    assert!(c.get_content().is_none());
    c.set_content("a".to_string());
    c.set_selection("b".to_string());
    c.set_primary("c".to_string());
    assert_eq!(c.get_content(), Some("a"));
    assert_eq!(c.get_selection(), Some("b"));
    assert_eq!(c.get_primary(), Some("c"));
    c.clear();
    assert!(c.get_primary().is_none());
}

#[test]
fn mouse_and_keyboard_state() {
    let mut m = MouseState::new();
    m.set_position(3, 4);
    m.set_scroll(ScrollDirection::Up);
    assert_eq!(m.position, (3, 4));
    assert_eq!(m.scroll_direction, Some(ScrollDirection::Up));
    m.clear_scroll();
    assert!(m.scroll_direction.is_none());
    let mut k = KeyboardState::new().with_kitty_keyboard(true).with_focus_events(true);
    assert!(k.kitty_keyboard && k.focus_events && !k.bracketed_paste);
    let input = k.press_key('q', KeyModifiers::CONTROL());
    assert_eq!(input.action, KeyAction::Press);
    assert_eq!(k.release_key('q', KeyModifiers::empty()).action, KeyAction::Release);
}

#[test]
fn runtime_queues_and_clipboard() {
    let mut rt = InputRuntime::new().with_bracketed_paste(true);
    assert!(rt.keyboard_state().bracketed_paste);
    rt.handle_keyboard_input(KeyboardInput { key: 'a', modifiers: KeyModifiers::empty(), action: KeyAction::Press });
    rt.handle_clipboard_input(ClipboardInput::new(ClipboardAction::Copy, "copied".to_string()));
    rt.handle_clipboard_input(ClipboardInput::new(ClipboardAction::Paste, "pasted".to_string()));
    assert_eq!(rt.clipboard().get_content(), Some("copied"));
    assert_eq!(rt.events().len(), 3);
    let first = rt.poll_event().unwrap();
    assert!(matches!(first.event_type, InputEventType::Keyboard(_)));
    rt.mouse_state_mut().set_position(1, 2);
    assert_eq!(rt.mouse_state().position, (1, 2));
    rt.clear();
    assert!(rt.poll_event().is_none());
    assert!(rt.clipboard().get_content().is_none());
    assert_eq!(rt.mouse_state().position, (0, 0));
}
