use std::cell::{Cell, RefCell};
use std::rc::Rc;
use bettertui_engine::input::event_dispatch::{DispatchStep, EventDispatcher, HandlerId};
use bettertui_engine::input::event_types::{Event, EventPhase, EventResult, Key, KeyEvent};
use bettertui_engine::tree::NodeId;

/// Runs a dispatch, answering each handler call with `answer`, and returns
/// the steps taken and the outcome.
fn run(
    d: &EventDispatcher,
    event: &mut Event,
    ancestors: &[NodeId],
    answer: impl Fn(HandlerId, &mut Event) -> EventResult,
) -> (Vec<DispatchStep>, EventResult) {
    let mut plan = d.dispatch(event.target(), ancestors);
    let mut taken = Vec::new();
    while let Some(step) = plan.next_step() {
        taken.push(step);
        match step {
            DispatchStep::SetPhase(p) => event.set_phase(p),
            DispatchStep::CallGlobal(h) | DispatchStep::CallNode(h) => {
                let r = answer(h, event);
                plan.report(r, event.is_consumed());
            }
        }
    }
    (taken, plan.outcome())
}

#[test]
fn dispatcher_new() {
    let dispatcher = EventDispatcher::new();
    assert_eq!(dispatcher.handler_count(), 0);
}

#[test]
fn dispatcher_register_and_remove() {
    let mut d = EventDispatcher::new();
    let child = NodeId(2);
    let h = d.on(child);
    assert_eq!(h, HandlerId(0));
    assert!(d.has_handlers(child));
    assert_eq!(d.handler_count(), 1);
    d.on_global();
    assert_eq!(d.handler_count(), 2);
    d.remove_handlers(child);
    assert!(!d.has_handlers(child));
    assert_eq!(d.handler_count(), 1);
    d.clear();
    assert_eq!(d.handler_count(), 0);
}

#[test]
fn dispatch_order_capture_target_bubble() {
    let mut d = EventDispatcher::new();
    let root = NodeId(1);
    let child = NodeId(2);
    let on_root = d.on(root);
    let on_child = d.on(child);
    let mut event = Event::Key(KeyEvent::new(Key::Enter, child));
    let (steps, outcome) = run(&d, &mut event, &[root], |_, _| EventResult::Ignored);
    assert_eq!(
        steps,
        vec![
            DispatchStep::SetPhase(EventPhase::Capture),
            DispatchStep::CallNode(on_root),
            DispatchStep::SetPhase(EventPhase::Target),
            DispatchStep::CallNode(on_child),
            DispatchStep::SetPhase(EventPhase::Bubble),
            DispatchStep::CallNode(on_root),
        ]
    );
    assert_eq!(outcome, EventResult::Ignored);
    assert_eq!(event.phase(), EventPhase::Bubble);
}

#[test]
fn dispatch_consumed_stops_bubble() {
    let mut d = EventDispatcher::new();
    let root = NodeId(1);
    let child = NodeId(2);
    let on_root = d.on(root);
    let on_child = d.on(child);
    let mut event = Event::Key(KeyEvent::new(Key::Enter, child));
    let (steps, outcome) = run(&d, &mut event, &[root], |h, _| {
        if h == on_child { EventResult::Consumed } else { EventResult::Ignored }
    });
    assert_eq!(outcome, EventResult::Consumed);
    assert_eq!(steps.last(), Some(&DispatchStep::CallNode(on_child)));
    assert_eq!(steps.iter().filter(|s| **s == DispatchStep::CallNode(on_root)).count(), 1);
}

#[test]
fn dispatch_global_first_and_consuming() {
    let mut d = EventDispatcher::new();
    let child = NodeId(2);
    let g = d.on_global();
    d.on(child);
    let mut event = Event::Key(KeyEvent::new(Key::Enter, child));
    let (steps, outcome) = run(&d, &mut event, &[], |_, _| EventResult::Consumed);
    assert_eq!(steps, vec![DispatchStep::CallGlobal(g)]);
    assert_eq!(outcome, EventResult::Consumed);
}

#[test]
fn dispatch_prevent_default_stops_node_handlers() {
    let mut d = EventDispatcher::new();
    let root = NodeId(1);
    let child = NodeId(2);
    d.on(root);
    let first = d.on(child);
    d.on(child);
    let mut event = Event::Key(KeyEvent::new(Key::Enter, child));
    let (steps, outcome) = run(&d, &mut event, &[root], |_, e| {
        if let Event::Key(k) = e {
            k.default_prevented = true;
        }
        EventResult::Ignored
    });
    assert_eq!(outcome, EventResult::Consumed);
    assert_eq!(steps.len(), 2);
    assert!(!steps.contains(&DispatchStep::CallNode(first)));
}

type Handler = Box<dyn FnMut(&mut Event) -> EventResult>;

/// Registrations with their handler code, as an application holds them.
struct Handlers {
    d: EventDispatcher,
    code: Vec<(HandlerId, Handler)>,
}

impl Handlers {
    fn new() -> Self {
        Handlers { d: EventDispatcher::new(), code: Vec::new() }
    }

    fn on(&mut self, node: NodeId, f: impl FnMut(&mut Event) -> EventResult + 'static) {
        let h = self.d.on(node);
        self.code.push((h, Box::new(f)));
    }

    fn on_global(&mut self, f: impl FnMut(&mut Event) -> EventResult + 'static) {
        let h = self.d.on_global();
        self.code.push((h, Box::new(f)));
    }

    fn dispatch(&mut self, event: &mut Event, ancestors: &[NodeId]) -> EventResult {
        let mut plan = self.d.dispatch(event.target(), ancestors);
        while let Some(step) = plan.next_step() {
            match step {
                DispatchStep::SetPhase(p) => event.set_phase(p),
                DispatchStep::CallGlobal(h) | DispatchStep::CallNode(h) => {
                    let f = &mut self.code.iter_mut().find(|(id, _)| *id == h).unwrap().1;
                    let r = f(event);
                    plan.report(r, event.is_consumed());
                }
            }
        }
        plan.outcome()
    }
}

fn root_and_child() -> (NodeId, NodeId) {
    (NodeId(0), NodeId(1))
}

#[test]
fn dispatcher_register_handler() {
    let mut h = Handlers::new();
    let (_root, child) = root_and_child();
    h.on(child, |_: &mut Event| EventResult::Ignored);
    assert!(h.d.has_handlers(child));
    assert_eq!(h.d.handler_count(), 1);
}

#[test]
fn dispatcher_remove_handlers() {
    let mut h = Handlers::new();
    let (_root, child) = root_and_child();
    h.on(child, |_: &mut Event| EventResult::Ignored);
    h.d.remove_handlers(child);
    assert!(!h.d.has_handlers(child));
}

#[test]
fn dispatcher_dispatch_to_target() {
    let mut h = Handlers::new();
    let (root, child) = root_and_child();
    let counter = Rc::new(Cell::new(0usize));
    let c = counter.clone();
    h.on(child, move |_: &mut Event| {
        c.set(c.get() + 1);
        EventResult::Consumed
    });
    let mut event = Event::Key(KeyEvent::new(Key::Enter, child));
    let result = h.dispatch(&mut event, &[root]);
    assert_eq!(result, EventResult::Consumed);
    assert_eq!(counter.get(), 1);
}

#[test]
fn dispatcher_capture_phase() {
    let mut h = Handlers::new();
    let (root, child) = root_and_child();
    let order = Rc::new(RefCell::new(Vec::new()));
    let o = order.clone();
    h.on(root, move |_: &mut Event| {
        o.borrow_mut().push("capture_root");
        EventResult::Ignored
    });
    let o2 = order.clone();
    h.on(child, move |_: &mut Event| {
        o2.borrow_mut().push("target_child");
        EventResult::Consumed
    });
    let mut event = Event::Key(KeyEvent::new(Key::Enter, child));
    h.dispatch(&mut event, &[root]);
    let captured = order.borrow();
    assert_eq!(captured.len(), 2);
    assert_eq!(captured[0], "capture_root");
    assert_eq!(captured[1], "target_child");
}

#[test]
fn dispatcher_bubble_phase() {
    let mut h = Handlers::new();
    let (root, child) = root_and_child();
    let order = Rc::new(RefCell::new(Vec::new()));
    let o = order.clone();
    h.on(root, move |_: &mut Event| {
        o.borrow_mut().push("root_handler");
        EventResult::Ignored
    });
    let o2 = order.clone();
    h.on(child, move |event: &mut Event| {
        o2.borrow_mut().push("child_handler");
        event.set_phase(EventPhase::Bubble);
        EventResult::Ignored
    });
    let mut event = Event::Key(KeyEvent::new(Key::Enter, child));
    h.dispatch(&mut event, &[root]);
    let captured = order.borrow();
    assert!(captured.contains(&"child_handler"));
    assert!(captured.contains(&"root_handler"));
}

#[test]
fn dispatcher_global_handler() {
    let mut h = Handlers::new();
    let (root, child) = root_and_child();
    let counter = Rc::new(Cell::new(0usize));
    let c = counter.clone();
    h.on_global(move |_: &mut Event| {
        c.set(c.get() + 1);
        EventResult::Ignored
    });
    let mut event = Event::Key(KeyEvent::new(Key::Enter, child));
    h.dispatch(&mut event, &[root]);
    assert_eq!(counter.get(), 1);
}

#[test]
fn dispatcher_consumed_stops_bubble() {
    let mut h = Handlers::new();
    let (root, child) = root_and_child();
    let order = Rc::new(RefCell::new(Vec::new()));
    let o = order.clone();
    h.on(root, move |event: &mut Event| {
        if event.phase() == EventPhase::Bubble {
            o.borrow_mut().push("root_bubble");
        }
        EventResult::Ignored
    });
    let o2 = order.clone();
    h.on(child, move |_: &mut Event| {
        o2.borrow_mut().push("child_target");
        EventResult::Consumed
    });
    let mut event = Event::Key(KeyEvent::new(Key::Enter, child));
    h.dispatch(&mut event, &[root]);
    let captured = order.borrow();
    assert!(captured.contains(&"child_target"));
    assert!(!captured.contains(&"root_bubble"));
}

#[test]
fn dispatcher_clear() {
    let mut h = Handlers::new();
    let (_root, child) = root_and_child();
    h.on(child, |_: &mut Event| EventResult::Ignored);
    h.on_global(|_: &mut Event| EventResult::Ignored);
    h.d.clear();
    assert_eq!(h.d.handler_count(), 0);
}
