use bettertui_engine::layout::compute::{LayoutEngine, LayoutError};
use bettertui_engine::layout::types::{
    AlignItems, Display, FlexDirection, FlexWrap, JustifyContent, Position,
};
use bettertui_engine::tree::NodeId;

fn make_ids(count: usize) -> Vec<NodeId> {
    (0..count).map(|i| NodeId::new(i as u64 + 1)).collect()
}

fn taffy_id(engine: &LayoutEngine, id: NodeId) -> taffy::NodeId {
    match engine.taffy_node(id) {
        Ok(t) => taffy::NodeId::from(t),
        Err(_) => panic!("node not registered"),
    }
}

#[test]
fn engine_new() {
    let engine = LayoutEngine::new();
    assert_eq!(engine.node_count(), 0);
}

#[test]
fn register_node_and_remove() {
    let mut engine = LayoutEngine::new();
    let ids = make_ids(1);
    let id = ids[0];
    engine.register_node(id);
    assert!(engine.has_node(id));
    engine.remove_node(id);
    assert!(!engine.has_node(id));
}

#[test]
fn register_twice_keeps_one_node() {
    let mut engine = LayoutEngine::new();
    let id = NodeId::new(7);
    engine.register_node(id);
    let first = taffy_id(&engine, id);
    engine.register_node(id);
    assert_eq!(engine.node_count(), 1);
    assert_eq!(taffy_id(&engine, id), first);
    assert_eq!(engine.tree().total_node_count(), 1);
}

#[test]
fn register_container_takes_style_once() {
    let mut engine = LayoutEngine::new();
    let id = NodeId::new(3);
    engine.register_container(id, taffy::Style::default());
    engine.register_container(id, taffy::Style::default());
    assert_eq!(engine.node_count(), 1);
    assert_eq!(engine.tree().total_node_count(), 1);
}

#[test]
fn distinct_nodes_get_distinct_taffy_nodes() {
    let mut engine = LayoutEngine::new();
    let ids = make_ids(3);
    for id in &ids {
        engine.register_node(*id);
    }
    assert_eq!(engine.node_count(), 3);
    let a = taffy_id(&engine, ids[0]);
    let b = taffy_id(&engine, ids[1]);
    let c = taffy_id(&engine, ids[2]);
    assert!(a != b && b != c && a != c);
}

#[test]
fn add_child_links_taffy_nodes() {
    let mut engine = LayoutEngine::new();
    let ids = make_ids(3);
    for id in &ids {
        engine.register_node(*id);
    }
    engine.add_child(ids[0], ids[1]);
    engine.add_child(ids[0], ids[2]);
    let p = taffy_id(&engine, ids[0]);
    let c1 = taffy_id(&engine, ids[1]);
    let c2 = taffy_id(&engine, ids[2]);
    assert_eq!(engine.tree().children(p).unwrap(), vec![c1, c2]);
    assert_eq!(engine.tree().parent(c1), Some(p));
    assert_eq!(engine.tree().parent(c2), Some(p));
}

#[test]
fn remove_child_detaches() {
    let mut engine = LayoutEngine::new();
    let ids = make_ids(3);
    for id in &ids {
        engine.register_node(*id);
    }
    engine.add_child(ids[0], ids[1]);
    engine.add_child(ids[0], ids[2]);
    engine.remove_child(ids[0], ids[1]);
    let p = taffy_id(&engine, ids[0]);
    let c1 = taffy_id(&engine, ids[1]);
    let c2 = taffy_id(&engine, ids[2]);
    assert_eq!(engine.tree().children(p).unwrap(), vec![c2]);
    assert_eq!(engine.tree().parent(c1), None);
    assert_eq!(engine.node_count(), 3);
}

#[test]
fn remove_parent_orphans_children() {
    let mut engine = LayoutEngine::new();
    let ids = make_ids(2);
    engine.register_node(ids[0]);
    engine.register_node(ids[1]);
    engine.add_child(ids[0], ids[1]);
    engine.remove_node(ids[0]);
    let c = taffy_id(&engine, ids[1]);
    assert_eq!(engine.tree().parent(c), None);
    assert_eq!(engine.tree().total_node_count(), 1);
    assert_eq!(engine.node_count(), 1);
}

#[test]
fn remove_child_node_leaves_parent_without_it() {
    let mut engine = LayoutEngine::new();
    let ids = make_ids(2);
    engine.register_node(ids[0]);
    engine.register_node(ids[1]);
    engine.add_child(ids[0], ids[1]);
    engine.remove_node(ids[1]);
    let p = taffy_id(&engine, ids[0]);
    assert!(engine.tree().children(p).unwrap().is_empty());
}

#[test]
fn remove_unregistered_does_nothing() {
    let mut engine = LayoutEngine::new();
    engine.register_node(NodeId::new(1));
    engine.remove_node(NodeId::new(2));
    assert_eq!(engine.node_count(), 1);
}

#[test]
fn taffy_node_of_unregistered_is_an_error() {
    let engine = LayoutEngine::default();
    match engine.taffy_node(NodeId::new(9)) {
        Err(LayoutError::NodeNotRegistered(id)) => assert_eq!(id, NodeId::new(9)),
        _ => panic!("expected NodeNotRegistered"),
    }
}

#[test]
fn text_nodes_are_measured_under_their_taffy_node() {
    let mut engine = LayoutEngine::new();
    let id = NodeId::new(4);
    engine.register_text_node(id, taffy::Style::default(), "hello");
    let t = engine.taffy_node(id).ok().unwrap();
    let texts = engine.measured_texts();
    assert_eq!(texts, vec![(t, "hello".to_string())]);
    engine.update_text(id, "bye");
    assert_eq!(engine.measured_texts(), vec![(t, "bye".to_string())]);
}

#[test]
fn text_of_unregistered_node_is_not_measured() {
    let mut engine = LayoutEngine::new();
    engine.update_text(NodeId::new(5), "floating");
    assert!(engine.measured_texts().is_empty());
    engine.register_node(NodeId::new(5));
    assert_eq!(engine.measured_texts().len(), 1);
}

#[test]
fn removing_a_text_node_drops_its_text() {
    let mut engine = LayoutEngine::new();
    let id = NodeId::new(6);
    engine.register_text_node(id, taffy::Style::default(), "x");
    engine.remove_node(id);
    engine.register_node(id);
    assert!(engine.measured_texts().is_empty());
}

#[test]
fn registrations_list_each_node_once() {
    let mut engine = LayoutEngine::new();
    let ids = make_ids(2);
    engine.register_node(ids[0]);
    engine.register_node(ids[1]);
    engine.register_node(ids[0]);
    let regs = engine.registrations();
    assert_eq!(regs.len(), 2);
    assert_eq!(regs[0].0, ids[0]);
    assert_eq!(regs[1].0, ids[1]);
}

#[test]
fn layout_keyword_defaults() {
    assert_eq!(Display::default(), Display::Flex);
    assert_eq!(Position::default(), Position::Relative);
    assert_eq!(FlexDirection::default(), FlexDirection::Column);
    assert_eq!(FlexWrap::default(), FlexWrap::NoWrap);
    assert_eq!(JustifyContent::default(), JustifyContent::FlexStart);
    assert_eq!(AlignItems::default(), AlignItems::Stretch);
}

#[test]
fn update_style_reaches_the_taffy_node() {
    let mut engine = LayoutEngine::new();
    let id = NodeId::new(8);
    engine.register_node(id);
    let style = taffy::Style { display: taffy::Display::None, ..Default::default() };
    engine.update_style(id, style);
    let t = taffy_id(&engine, id);
    assert_eq!(engine.tree().style(t).unwrap().display, taffy::Display::None);
}

#[test]
fn update_style_of_unregistered_node_does_nothing() {
    let mut engine = LayoutEngine::new();
    engine.update_style(NodeId::new(9), taffy::Style::default());
    assert_eq!(engine.node_count(), 0);
    assert_eq!(engine.tree().total_node_count(), 0);
}
