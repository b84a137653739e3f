use std::cell::RefCell;
use bettertui_engine::input::event_bus::EventBus;
use bettertui_engine::input::event_dispatch::EventDispatcher;
use bettertui_engine::input::event_types::{
    Event, EventResult, Key, KeyEvent, LifecycleEvent, Modifiers, MouseButton,
};
use bettertui_engine::tree::{NodeId, Point};

fn target() -> NodeId {
    NodeId::new(1)
}

#[test]
fn bus_new() {
    let bus = EventBus::new();
    assert!(bus.is_empty());
    assert_eq!(bus.len(), 0);
}

#[test]
fn bus_push_and_drain() {
    let mut bus = EventBus::new();
    bus.push(Event::Key(KeyEvent::new(Key::Enter, target())));
    assert_eq!(bus.len(), 1);
    let events = bus.drain();
    assert_eq!(events.len(), 1);
    assert!(bus.is_empty());
}

#[test]
fn bus_push_key() {
    let mut bus = EventBus::new();
    bus.push_key(Key::Enter, Modifiers::NONE(), target());
    assert_eq!(bus.len(), 1);
}

#[test]
fn bus_push_mouse() {
    let mut bus = EventBus::new();
    bus.push_mouse(MouseButton::Left, Point::new(5, 10), target());
    assert_eq!(bus.len(), 1);
}

#[test]
fn bus_push_resize() {
    let mut bus = EventBus::new();
    bus.push_resize(120, 40, 80, 24);
    assert_eq!(bus.len(), 1);
}

#[test]
fn bus_push_lifecycle() {
    let mut bus = EventBus::new();
    bus.push_lifecycle(LifecycleEvent::Mount);
    assert_eq!(bus.len(), 1);
}

#[test]
fn bus_coalesce_mouse() {
    let mut bus = EventBus::new();
    bus.push_mouse(MouseButton::Left, Point::new(1, 1), target());
    bus.push_mouse(MouseButton::Left, Point::new(2, 2), target());
    bus.push_mouse(MouseButton::Left, Point::new(3, 3), target());
    assert_eq!(bus.len(), 1);
    let events = bus.drain();
    match &events[0] {
        Event::Mouse(m) => assert_eq!(m.position, Point::new(3, 3)),
        _ => panic!("expected a mouse event"),
    }
}

#[test]
fn bus_no_coalesce_different_buttons() {
    let mut bus = EventBus::new();
    bus.push_mouse(MouseButton::Left, Point::new(1, 1), target());
    bus.push_mouse(MouseButton::Right, Point::new(2, 2), target());
    assert_eq!(bus.len(), 2);
}

#[test]
fn bus_clear() {
    let mut bus = EventBus::new();
    bus.push(Event::Key(KeyEvent::new(Key::Enter, target())));
    bus.clear();
    assert!(bus.is_empty());
}

#[test]
fn bus_disable_coalesce() {
    let mut bus = EventBus::new();
    bus.set_coalesce_mouse(false);
    bus.push_mouse(MouseButton::Left, Point::new(1, 1), target());
    bus.push_mouse(MouseButton::Left, Point::new(2, 2), target());
    assert_eq!(bus.len(), 2);
}

#[test]
fn bus_drops_oldest_when_full() {
    let mut bus = EventBus::new();
    for i in 0..300u32 {
        let c = char::from_u32(0x4e00 + i).unwrap();
        bus.push_key(Key::Character(c), Modifiers::NONE(), target());
    }
    assert_eq!(bus.len(), 256);
    let events = bus.drain();
    match &events[0] {
        Event::Key(k) => assert_eq!(k.key, Key::Character(char::from_u32(0x4e00 + 44).unwrap())),
        _ => panic!("expected a key event"),
    }
    bus.push_paste("abc", target());
    assert_eq!(bus.len(), 1);
}

#[test]
fn bus_max_queue_size() {
    let mut bus = EventBus::new();
    bus.set_max_queue_size(3);
    for _ in 0..5 {
        bus.push(Event::Key(KeyEvent::new(Key::Enter, target())));
    }
    assert_eq!(bus.len(), 3);
}

#[test]
fn bus_pop_takes_oldest_first() {
    let mut bus = EventBus::new();
    bus.push_resize(10, 5, 0, 0);
    bus.push_resize(20, 6, 10, 5);
    match bus.pop() {
        Some(Event::Resize(r)) => assert_eq!((r.width, r.height), (10, 5)),
        _ => panic!("expected the first resize"),
    }
    assert_eq!(bus.len(), 1);
    assert!(bus.pop().is_some());
    assert!(bus.pop().is_none());
}

#[test]
fn bus_process_all() {
    let mut bus = EventBus::new();
    bus.push(Event::Key(KeyEvent::new(Key::Enter, target())));
    bus.push(Event::Key(KeyEvent::new(Key::Escape, target())));
    let dispatcher = EventDispatcher::new();
    bus.process_all(|event: Event| {
        let mut plan = dispatcher.dispatch(event.target(), &[]);
        while plan.next_step().is_some() {
            plan.report(EventResult::Ignored, false);
        }
        plan.outcome()
    });
    assert!(bus.is_empty());
}

#[test]
fn bus_process_all_hands_over_each_event_in_order() {
    let mut bus = EventBus::new();
    bus.push_resize(1, 1, 0, 0);
    bus.push_resize(2, 2, 1, 1);
    let seen = RefCell::new(Vec::new());
    bus.process_all(|event: Event| {
        if let Event::Resize(r) = event {
            seen.borrow_mut().push(r.width);
        }
        EventResult::Ignored
    });
    assert_eq!(*seen.borrow(), vec![1, 2]);
    assert!(bus.is_empty());
}

#[test]
fn bus_process_until_consumed_stops_at_first_consumed() {
    let mut bus = EventBus::new();
    bus.push_resize(1, 1, 0, 0);
    bus.push_resize(2, 2, 1, 1);
    bus.push_resize(3, 3, 2, 2);
    let result = bus.process_until_consumed(|event: Event| match event {
        Event::Resize(r) if r.width == 2 => EventResult::Consumed,
        _ => EventResult::Ignored,
    });
    assert_eq!(result, Some(EventResult::Consumed));
    assert_eq!(bus.len(), 1);
    match bus.pop() {
        Some(Event::Resize(r)) => assert_eq!(r.width, 3),
        _ => panic!("expected the last resize"),
    }
}

#[test]
fn bus_process_until_consumed_none_when_nothing_consumed() {
    let mut bus = EventBus::new();
    bus.push_resize(1, 1, 0, 0);
    let result = bus.process_until_consumed(|_event: Event| EventResult::Ignored);
    assert_eq!(result, None);
    assert!(bus.is_empty());
}
