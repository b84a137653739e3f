use bettertui_engine::input::focus::{
    FocusDirection, FocusEvent, FocusEventType, FocusId, FocusManager, FocusScope, FocusScopeType,
    FocusState, FocusTraversal,
};
use bettertui_engine::tree::NodeId;

#[test]
fn focus_event_new() {
    let event = FocusEvent::new(NodeId::default(), FocusEventType::Focus);
    assert!(event.is_focus());
}

#[test]
fn focus_event_is_focus() {
    let event = FocusEvent::new(NodeId::default(), FocusEventType::Focus);
    assert!(event.is_focus());
    assert!(!event.is_blur());
}

#[test]
fn focus_event_is_blur() {
    let event = FocusEvent::new(NodeId::default(), FocusEventType::Blur);
    assert!(event.is_blur());
    assert!(!event.is_focus());
}

#[test]
fn focus_event_is_focus_in() {
    let event = FocusEvent::new(NodeId::default(), FocusEventType::FocusIn);
    assert!(event.is_focus_in());
}

#[test]
fn focus_event_is_focus_out() {
    let event = FocusEvent::new(NodeId::default(), FocusEventType::FocusOut);
    assert!(event.is_focus_out());
}

#[test]
fn focus_scope_new() {
    let scope = FocusScope::new(NodeId::default(), FocusScopeType::Window);
    assert_eq!(scope.scope_type, FocusScopeType::Window);
    assert!(!scope.is_modal());
    assert!(!scope.traps_focus());
}

#[test]
fn focus_scope_default() {
    let scope = FocusScope::default();
    assert_eq!(scope.scope_type, FocusScopeType::Window);
}

#[test]
fn focus_scope_with_modal() {
    let scope = FocusScope::new(NodeId::default(), FocusScopeType::Modal).with_modal(true);
    assert!(scope.is_modal());
}

#[test]
fn focus_scope_with_trap_focus() {
    let scope = FocusScope::new(NodeId::default(), FocusScopeType::Panel).with_trap_focus(true);
    assert!(scope.traps_focus());
}

#[test]
fn focus_id_new() {
    let id = FocusId::new(NodeId::default());
    assert_eq!(id.node_id(), NodeId::default());
}

#[test]
fn focus_id_default() {
    let id = FocusId::default();
    assert_eq!(id.node_id(), NodeId::default());
}

#[test]
fn focus_state_new() {
    let state = FocusState::new();
    assert!(state.is_focusable());
    assert!(!state.is_focused());
}

#[test]
fn focus_state_default() {
    let state = FocusState::default();
    assert!(state.is_focusable());
    assert!(!state.is_focused());
}

#[test]
fn focus_state_with_focusable() {
    let state = FocusState::with_focusable(false);
    assert!(!state.is_focusable());
}

#[test]
fn focus_state_with_tab_index() {
    let state = FocusState::with_tab_index(5);
    assert_eq!(state.tab_index, 5);
}

#[test]
fn focus_traversal_next() {
    let mut manager = FocusManager::new();
    let node1 = NodeId::default();
    let node2 = NodeId::default();
    manager.register(node1, FocusState::new());
    manager.register(node2, FocusState::new());
    manager.focus(node1);
    let next = FocusTraversal::next(&manager);
    assert_eq!(next, Some(node2));
}

#[test]
fn focus_traversal_previous() {
    let mut manager = FocusManager::new();
    let node1 = NodeId::default();
    let node2 = NodeId::default();
    manager.register(node1, FocusState::new());
    manager.register(node2, FocusState::new());
    manager.focus(node2);
    let prev = FocusTraversal::previous(&manager);
    assert_eq!(prev, Some(node1));
}

#[test]
fn focus_traversal_first() {
    let mut manager = FocusManager::new();
    let node1 = NodeId::default();
    let node2 = NodeId::default();
    manager.register(node1, FocusState::new());
    manager.register(node2, FocusState::new());
    let first = FocusTraversal::first(&manager);
    assert_eq!(first, Some(node1));
}

#[test]
fn focus_traversal_last() {
    let mut manager = FocusManager::new();
    let node1 = NodeId::default();
    let node2 = NodeId::default();
    manager.register(node1, FocusState::new());
    manager.register(node2, FocusState::new());
    let last = FocusTraversal::last(&manager);
    assert_eq!(last, Some(node2));
}

#[test]
fn focus_traversal_empty() {
    let manager = FocusManager::new();
    assert!(FocusTraversal::next(&manager).is_none());
    assert!(FocusTraversal::previous(&manager).is_none());
    assert!(FocusTraversal::first(&manager).is_none());
    assert!(FocusTraversal::last(&manager).is_none());
}

#[test]
fn focus_manager_new() {
    let manager = FocusManager::new();
    assert!(manager.focused().is_none());
}

#[test]
fn focus_manager_default() {
    let manager = FocusManager::default();
    assert!(manager.focused().is_none());
}

#[test]
fn focus_manager_register() {
    let mut manager = FocusManager::new();
    let node_id = NodeId::default();
    manager.register(node_id, FocusState::new());
    assert!(manager.is_focusable(node_id));
}

#[test]
fn focus_manager_focus() {
    let mut manager = FocusManager::new();
    let node_id = NodeId::default();
    manager.register(node_id, FocusState::new());
    let event = manager.focus(node_id);
    assert!(event.is_some());
    assert_eq!(manager.focused(), Some(node_id));
}

#[test]
fn focus_manager_blur() {
    let mut manager = FocusManager::new();
    let node_id = NodeId::default();
    manager.register(node_id, FocusState::new());
    manager.focus(node_id);
    let event = manager.blur(node_id);
    assert!(event.is_some());
    assert!(manager.focused().is_none());
}

#[test]
fn focus_manager_restore() {
    let mut manager = FocusManager::new();
    let node1 = NodeId::default();
    let node2 = NodeId::default();
    manager.register(node1, FocusState::new());
    manager.register(node2, FocusState::new());
    manager.focus(node1);
    manager.focus(node2);
    manager.restore();
    assert_eq!(manager.focused(), Some(node1));
}

#[test]
fn focus_manager_distinct_nodes_and_tab_order() {
    let mut manager = FocusManager::new();
    let a = NodeId::new(1);
    let b = NodeId::new(2);
    let c = NodeId::new(3);
    manager.register(a, FocusState::with_tab_index(2));
    manager.register(b, FocusState::with_tab_index(1));
    manager.register(c, FocusState::with_focusable(false));
    assert_eq!(manager.tab_order(), &[b, a]);
    assert_eq!(manager.focusable_nodes(), vec![a, b]);
    assert!(!manager.is_focusable(c));
    assert!(manager.focus(c).is_none());

    let first = manager.focus(a).unwrap();
    assert_eq!(first.node_id, a);
    assert!(first.is_focus());
    let second = manager.focus(b).unwrap();
    assert_eq!(second.node_id, a);
    assert!(second.is_blur());
    assert_eq!(manager.previous(), Some(a));
    assert!(manager.focus(b).is_none());

    assert_eq!(FocusTraversal::next(&manager), Some(a));
    assert_eq!(FocusTraversal::traverse(&manager, FocusDirection::Backward), Some(a));
    assert_eq!(FocusTraversal::traverse(&manager, FocusDirection::Last), Some(b));

    manager.restore();
    assert_eq!(manager.focused(), Some(a));
    manager.unregister(a);
    assert!(manager.focused().is_none());
    assert_eq!(manager.tab_order(), &[b]);

    manager.push_scope(FocusScope::new(a, FocusScopeType::Modal));
    assert_eq!(manager.current_scope().unwrap().scope_type, FocusScopeType::Modal);
    assert!(manager.pop_scope().is_some());
    assert!(manager.pop_scope().is_none());
    manager.clear();
    assert!(manager.focusable_nodes().is_empty());
}

#[test]
fn focus_manager_tab_order_sorted_and_stable() {
    let mut manager = FocusManager::new();
    let ids: Vec<NodeId> = (1..=6).map(NodeId::new).collect();
    let keys = [3, -1, 3, 0, -1, 7];
    for (id, k) in ids.iter().zip(keys.iter()) {
        manager.register(*id, FocusState::with_tab_index(*k));
    }
    assert_eq!(
        manager.tab_order(),
        &[ids[1], ids[4], ids[3], ids[0], ids[2], ids[5]]
    );
    manager.register(ids[5], FocusState::with_tab_index(-5));
    assert_eq!(manager.tab_order()[0], ids[5]);
}

#[test]
fn focus_manager_blur_event_of_former_focus() {
    let mut manager = FocusManager::new();
    let a = NodeId::new(1);
    let b = NodeId::new(2);
    manager.register(a, FocusState::new());
    manager.register(b, FocusState::new());
    let ev = manager.focus(a).unwrap();
    assert!(ev.is_focus());
    let ev = manager.focus(b).unwrap();
    assert!(ev.is_blur());
    assert_eq!(ev.node_id, a);
    manager.unregister(b);
    assert!(manager.focused().is_none());
    let ev = manager.focus(a).unwrap();
    assert!(ev.is_focus());
    assert_eq!(ev.node_id, a);
}

#[test]
fn focus_manager_restore_events() {
    let mut manager = FocusManager::new();
    let a = NodeId::new(1);
    let b = NodeId::new(2);
    assert!(manager.restore().is_none());
    manager.register(a, FocusState::new());
    manager.register(b, FocusState::new());
    manager.focus(a);
    manager.focus(b);
    let ev = manager.restore().unwrap();
    assert!(ev.is_blur());
    assert_eq!(ev.node_id, b);
    assert_eq!(manager.focused(), Some(a));
    assert_eq!(manager.previous(), Some(b));
    manager.unregister(a);
    assert!(manager.focused().is_none());
    let ev = manager.restore().unwrap();
    assert!(ev.is_focus());
    assert_eq!(ev.node_id, b);
    assert_eq!(manager.focused(), Some(b));
    assert!(manager.previous().is_none());
}
