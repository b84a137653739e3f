use bettertui_engine::layout::sync::{LayoutResult, LayoutTreeSync, SceneNode};
use bettertui_engine::tree::NodeId;

fn scene_node(id: u64) -> SceneNode {
    SceneNode { id: NodeId::new(id), text: None, layout_dirty: true }
}

fn styled(nodes: &[SceneNode]) -> Vec<(SceneNode, taffy::Style)> {
    nodes.iter().map(|n| (n.clone(), taffy::Style::default())).collect()
}

/// A fresh scene holds its root node only.
fn root_scene() -> Vec<SceneNode> {
    vec![scene_node(1)]
}

#[test]
fn sync_full_basic() {
    let scene = root_scene();
    let mut sync = LayoutTreeSync::new();
    sync.sync_full(styled(&scene));
    assert_eq!(sync.node_count(), 1);
}

#[test]
fn sync_updates_existing() {
    let scene = root_scene();
    let mut sync = LayoutTreeSync::new();
    sync.sync_full(styled(&scene));
    assert_eq!(sync.node_count(), 1);
    sync.sync_full(styled(&scene));
    assert_eq!(sync.node_count(), 1);
}

#[test]
fn sync_children_attaches_in_order() {
    let scene = vec![scene_node(1), scene_node(2), scene_node(3)];
    let mut sync = LayoutTreeSync::default();
    sync.sync_node(&scene[0], taffy::Style::default());
    sync.sync_children(NodeId::new(1), styled(&scene[1..]));
    assert_eq!(sync.node_count(), 3);
    let engine = sync.layout();
    let p = taffy::NodeId::from(engine.taffy_node(NodeId::new(1)).ok().unwrap());
    let c1 = taffy::NodeId::from(engine.taffy_node(NodeId::new(2)).ok().unwrap());
    let c2 = taffy::NodeId::from(engine.taffy_node(NodeId::new(3)).ok().unwrap());
    assert_eq!(engine.tree().children(p).unwrap(), vec![c1, c2]);
}

#[test]
fn sync_remove_then_add() {
    let scene = vec![scene_node(1), scene_node(2)];
    let mut sync = LayoutTreeSync::new();
    sync.sync_full(styled(&scene));
    assert_eq!(sync.node_count(), 2);
    sync.remove_node(NodeId::new(2));
    assert_eq!(sync.node_count(), 1);
    sync.sync_node(&scene[1], taffy::Style::default());
    assert_eq!(sync.node_count(), 2);
}

#[test]
fn text_nodes_take_their_text() {
    let mut sync = LayoutTreeSync::new();
    let mut node = scene_node(4);
    node.text = Some("hi".to_string());
    sync.sync_node(&node, taffy::Style::default());
    let t = sync.layout().taffy_node(NodeId::new(4)).ok().unwrap();
    assert_eq!(sync.layout().measured_texts(), vec![(t, "hi".to_string())]);
    node.text = Some("changed".to_string());
    node.layout_dirty = false;
    sync.sync_node(&node, taffy::Style::default());
    assert_eq!(sync.layout().measured_texts(), vec![(t, "hi".to_string())]);
    node.layout_dirty = true;
    sync.sync_node(&node, taffy::Style::default());
    assert_eq!(sync.layout().measured_texts(), vec![(t, "changed".to_string())]);
}

#[test]
fn results_are_kept_as_given() {
    let mut sync = LayoutTreeSync::new();
    assert!(sync.results().is_empty());
    let r = LayoutResult { width: 80, height: 24, ..Default::default() };
    sync.set_results(vec![(NodeId::new(1), r)]);
    assert_eq!(sync.results(), &[(NodeId::new(1), r)]);
}
