use bettertui_engine::input::event_types::Key;
use bettertui_engine::keyboard::{KeyAction, KeyBinding, KeyboardHandler};

#[test]
fn simple_binding() {
    let mut handler = KeyboardHandler::new();
    handler.bind(KeyBinding::new(Key::Character('q')), "quit");
    let action = handler.process_key(&Key::Character('q'));
    assert_eq!(action, KeyAction::Action("quit".to_string()));
}

#[test]
fn ctrl_binding() {
    let mut handler = KeyboardHandler::new();
    handler.bind(KeyBinding::new(Key::Character('c')).ctrl(), "interrupt");
    handler.set_modifiers(true, false, false);
    let action = handler.process_key(&Key::Character('c'));
    assert_eq!(action, KeyAction::Action("interrupt".to_string()));
}

#[test]
fn unhandled_key() {
    let handler = KeyboardHandler::new();
    let action = handler.process_key(&Key::Character('x'));
    assert_eq!(action, KeyAction::Char('x'));
}

#[test]
fn unbound_modifier() {
    let mut handler = KeyboardHandler::new();
    handler.bind(KeyBinding::new(Key::Character('q')), "quit");
    handler.set_modifiers(true, false, false); // Ctrl held
    let action = handler.process_key(&Key::Character('q'));
    assert_eq!(action, KeyAction::Char('q')); // doesn't match
}

#[test]
fn unbind() {
    let mut handler = KeyboardHandler::new();
    let binding = KeyBinding::new(Key::Character('q'));
    handler.bind(binding.clone(), "quit");
    assert_eq!(handler.binding_count(), 1);
    handler.unbind(&binding);
    assert_eq!(handler.binding_count(), 0);
}

#[test]
fn clear_bindings() {
    let mut handler = KeyboardHandler::new();
    handler.bind(KeyBinding::new(Key::Character('a')), "a");
    handler.bind(KeyBinding::new(Key::Character('b')), "b");
    handler.clear_bindings();
    assert_eq!(handler.binding_count(), 0);
}

#[test]
fn binding_chaining() {
    let binding = KeyBinding::new(Key::Character('s')).ctrl().shift();
    assert!(binding.ctrl);
    assert!(binding.shift);
    assert!(!binding.alt);
}

#[test]
fn kitty_protocol_toggle() {
    let mut handler = KeyboardHandler::new();
    assert!(!handler.kitty_protocol());
    handler.set_kitty_protocol(true);
    assert!(handler.kitty_protocol());
}

#[test]
fn last_binding_wins() {
    let mut handler = KeyboardHandler::new();
    handler.bind(KeyBinding::new(Key::Character('x')), "first");
    handler.bind(KeyBinding::new(Key::Character('x')), "second");
    let action = handler.process_key(&Key::Character('x'));
    assert_eq!(action, KeyAction::Action("second".to_string()));
}

#[test]
fn non_character_key_unhandled_and_unbind_keeps_others() {
    let mut handler = KeyboardHandler::default();
    assert_eq!(handler.process_key(&Key::Enter), KeyAction::Unhandled);
    let a = KeyBinding::new(Key::Enter).alt();
    let b = KeyBinding::new(Key::Tab);
    handler.bind(a, "alt-enter");
    handler.bind(b, "tab");
    handler.unbind(&a);
    assert_eq!(handler.binding_count(), 1);
    handler.set_modifiers(false, false, true);
    assert_eq!(handler.modifiers(), (false, false, true));
    assert_eq!(handler.process_key(&Key::Enter), KeyAction::Unhandled);
    handler.set_modifiers(false, false, false);
    assert_eq!(handler.process_key(&Key::Tab), KeyAction::Action("tab".to_string()));
}
