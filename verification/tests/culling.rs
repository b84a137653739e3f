use bettertui_engine::layout::culling::{get_objects_in_viewport, PositionedChild, PrimaryAxis, Viewport};
use bettertui_engine::tree::NodeId;

fn make_sorted_children(start: u16, count: usize, step: u16, size: u16) -> Vec<PositionedChild> {
    (0..count)
        .map(|i| PositionedChild {
            id: NodeId::new(i as u64 + 1),
            start: start + i as u16 * step,
            size,
        })
        .collect()
}

#[test]
fn empty_children() {
    let vp = Viewport::new(0, 0, 80, 24);
    let result = get_objects_in_viewport(&vp, &[], PrimaryAxis::Column);
    assert!(result.is_empty());
}

#[test]
fn zero_size_viewport() {
    let children = make_sorted_children(0, 5, 5, 3);
    let vp = Viewport::new(0, 0, 0, 0);
    let result = get_objects_in_viewport(&vp, &children, PrimaryAxis::Column);
    assert!(result.is_empty());
}

#[test]
fn all_children_visible() {
    let children = make_sorted_children(0, 5, 2, 1);
    let vp = Viewport::new(0, 0, 10, 10);
    let result = get_objects_in_viewport(&vp, &children, PrimaryAxis::Column);
    assert_eq!(result.len(), 5);
}

#[test]
fn some_children_visible() {
    let children = make_sorted_children(0, 20, 2, 1);
    let vp = Viewport::new(0, 0, 10, 5);
    let result = get_objects_in_viewport(&vp, &children, PrimaryAxis::Column);
    assert!(result.len() < 20);
    assert!(!result.is_empty());
    // With padding of 5, viewport expands to y=0..15 → first 8 children (y=0..14)
    assert_eq!(result.len(), 8);
}

#[test]
fn no_children_visible() {
    let children = make_sorted_children(100, 5, 5, 3);
    let vp = Viewport::new(0, 0, 10, 10);
    let result = get_objects_in_viewport(&vp, &children, PrimaryAxis::Column);
    assert!(result.is_empty());
}

#[test]
fn spanning_object_caught() {
    let tall_id = NodeId::new(7);
    let children = vec![PositionedChild {
        id: tall_id,
        start: 0,
        size: 50,
    }];
    let vp = Viewport::new(0, 30, 10, 10);
    let result = get_objects_in_viewport(&vp, &children, PrimaryAxis::Column);
    assert_eq!(result.len(), 1);
    assert_eq!(result[0], tall_id);
}

#[test]
fn row_axis() {
    let children = make_sorted_children(0, 10, 5, 3);
    let vp = Viewport::new(5, 0, 10, 10);
    let result = get_objects_in_viewport(&vp, &children, PrimaryAxis::Row);
    // Children at x=0..3 (idx 0), x=5..8 (idx 1), x=10..13 (idx 2), x=15..18 (idx 3)
    // Padded viewport x=0..30 → catches all 4 children in range
    assert_eq!(result.len(), 4);
}

#[test]
fn small_array_bypasses_binary_search() {
    let children = make_sorted_children(0, 15, 2, 1);
    let vp = Viewport::new(0, 5, 10, 5);
    let result = get_objects_in_viewport(&vp, &children, PrimaryAxis::Column);
    assert!(!result.is_empty());
    assert!(result.len() < 15);
}

#[test]
fn gap_between_children() {
    let children = make_sorted_children(0, 3, 100, 5);
    let vp = Viewport::new(0, 50, 10, 10);
    let result = get_objects_in_viewport(&vp, &children, PrimaryAxis::Column);
    assert!(result.is_empty());
}

#[test]
fn partial_overlap_at_edge() {
    let children = make_sorted_children(0, 5, 5, 10);
    let vp = Viewport::new(0, 8, 10, 5);
    let result = get_objects_in_viewport(&vp, &children, PrimaryAxis::Column);
    assert_eq!(
        result.len(),
        4,
        "with padding should catch 4 overlapping children"
    );
}

#[test]
fn padding_includes_nearby_objects() {
    let children = make_sorted_children(10, 3, 10, 5);
    let vp = Viewport::new(0, 0, 80, 10);
    let result = get_objects_in_viewport(&vp, &children, PrimaryAxis::Column);
    assert_eq!(
        result.len(),
        1,
        "padding should include child just below viewport"
    );
}

#[test]
fn large_sparse_list() {
    let children = make_sorted_children(0, 1000, 10, 5);
    let vp = Viewport::new(0, 5000, 80, 24);
    let result = get_objects_in_viewport(&vp, &children, PrimaryAxis::Column);
    assert!(
        result.len() <= 3,
        "should find only overlapping children from large sparse list"
    );
}

#[test]
fn viewport_padding_saturates() {
    let vp = Viewport::new(2, 3, 10, 65530).with_padding(5);
    assert_eq!(vp, Viewport::new(0, 0, 20, 65535));
    assert_eq!(Viewport::new(65530, 1, 10, 2).right(), 65535);
    assert_eq!(Viewport::new(1, 4, 10, 2).bottom(), 6);
}

#[test]
fn large_list_finds_exact_window() {
    let children = make_sorted_children(0, 100, 10, 5);
    let vp = Viewport::new(0, 500, 80, 20);
    let result = get_objects_in_viewport(&vp, &children, PrimaryAxis::Column);
    // padded span [495, 525): children at 490 (ends 495, no), 500, 510, 520
    let ids: Vec<u64> = result.iter().map(|n| n.0).collect();
    assert_eq!(ids, vec![51, 52, 53]);
}

#[test]
fn large_list_gap_uses_margin_scan() {
    let children = make_sorted_children(0, 20, 100, 5);
    let vp = Viewport::new(0, 112, 10, 1);
    // padded span [107, 118): no child meets it; the backward scan keeps
    // children ending after 97 (the child at 100 ends at 105)
    let result = get_objects_in_viewport(&vp, &children, PrimaryAxis::Column);
    let ids: Vec<u64> = result.iter().map(|n| n.0).collect();
    assert_eq!(ids, vec![2]);
}
