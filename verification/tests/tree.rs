use webgpui::input::NodeId;
use webgpui::tree::{NodeKind, NodeTree};
use webgpui::widget::NodeRole;
use webgpui::FOCUS_RING_WIDTH;

#[test]
fn add_and_find_node() {
    let mut tree = NodeTree::new();
    let id = tree.add_node(NodeId::root(), NodeKind::Container);
    assert!(tree.get(id).is_some());
}

#[test]
fn remove_node() {
    let mut tree = NodeTree::new();
    let id = tree.add_node(NodeId::root(), NodeKind::Container);
    assert!(tree.remove_node(id));
    assert!(tree.get(id).is_none());
}

#[test]
fn compact_removes_tombstones() {
    let mut tree = NodeTree::new();
    let a = tree.add_node(NodeId::root(), NodeKind::Container);
    let b = tree.add_node(NodeId::root(), NodeKind::Container);
    let c = tree.add_node(a, NodeKind::Text);
    let len_before = tree.len();
    tree.remove_node(b);
    assert_eq!(tree.len(), len_before);
    tree.compact();
    assert!(tree.len() < len_before);
    assert!(tree.get(a).is_some());
    assert!(tree.get(c).is_some());
    assert!(tree.get(b).is_none());
    assert!(tree.children_of(a).contains(&c));
}

#[test]
fn node_default_role_is_none() {
    let tree = NodeTree::new();
    assert_eq!(tree.get(NodeId::root()).unwrap().role, NodeRole::NoRole);
}

#[test]
fn set_role_readable_via_get() {
    let mut tree = NodeTree::new();
    let id = tree.add_node(NodeId::root(), NodeKind::Container);
    assert!(tree.set_role(id, NodeRole::Button));
    assert_eq!(tree.get(id).unwrap().role, NodeRole::Button);
}

#[test]
fn focus_ring_width_is_two() {
    assert_eq!(FOCUS_RING_WIDTH as f32, 2.0);
}

#[test]
fn root_cannot_be_removed() {
    let mut tree = NodeTree::new();
    assert!(!tree.remove_node(NodeId::root()));
    assert!(tree.contains(NodeId::root()));
}

#[test]
fn remove_missing_node_returns_false() {
    let mut tree = NodeTree::new();
    assert!(!tree.remove_node(NodeId(77)));
    assert!(!tree.set_role(NodeId(77), NodeRole::Tab));
}

#[test]
fn remove_drops_whole_subtree() {
    let mut tree = NodeTree::new();
    let a = tree.add_node(NodeId::root(), NodeKind::Container);
    let b = tree.add_node(a, NodeKind::Container);
    let c = tree.add_node(b, NodeKind::Text);
    let d = tree.add_node(NodeId::root(), NodeKind::Image);
    assert!(tree.remove_node(a));
    assert!(!tree.contains(a));
    assert!(!tree.contains(b));
    assert!(!tree.contains(c));
    assert!(tree.contains(d));
    assert_eq!(tree.children_of(NodeId::root()), vec![d]);
}

#[test]
fn ids_are_handed_out_in_order() {
    let mut tree = NodeTree::new();
    let a = tree.add_node(NodeId::root(), NodeKind::Container);
    let b = tree.add_node(a, NodeKind::Container);
    assert_eq!(a, NodeId(1));
    assert_eq!(b, NodeId(2));
    tree.remove_node(b);
    let c = tree.add_node(a, NodeKind::Text);
    assert_eq!(c, NodeId(3));
}

#[test]
fn flush_dirty_collects_and_clears() {
    let mut tree = NodeTree::new();
    let a = tree.add_node(NodeId::root(), NodeKind::Container);
    let b = tree.add_node(a, NodeKind::Text);
    assert_eq!(tree.flush_dirty(), vec![NodeId::root(), a, b]);
    assert!(tree.flush_dirty().is_empty());
    assert!(tree.mark_dirty(b));
    assert_eq!(tree.flush_dirty(), vec![b]);
    tree.mark_all_dirty();
    assert_eq!(tree.flush_dirty(), vec![NodeId::root(), a, b]);
}

#[test]
fn flush_dirty_skips_removed_nodes() {
    let mut tree = NodeTree::new();
    let a = tree.add_node(NodeId::root(), NodeKind::Container);
    tree.flush_dirty();
    tree.mark_all_dirty();
    tree.remove_node(a);
    assert_eq!(tree.flush_dirty(), vec![NodeId::root()]);
}

#[test]
fn children_are_kept_in_order() {
    let mut tree = NodeTree::new();
    let a = tree.add_node(NodeId::root(), NodeKind::Container);
    let b = tree.add_node(NodeId::root(), NodeKind::Text);
    let c = tree.add_node(NodeId::root(), NodeKind::Image);
    assert_eq!(tree.children_of(NodeId::root()), vec![a, b, c]);
    assert!(tree.children_of(NodeId(99)).is_empty());
}

#[test]
fn compact_keeps_structure_and_flags() {
    let mut tree = NodeTree::new();
    let a = tree.add_node(NodeId::root(), NodeKind::Container);
    let b = tree.add_node(NodeId::root(), NodeKind::Container);
    let c = tree.add_node(a, NodeKind::Text);
    let d = tree.add_node(c, NodeKind::Image);
    tree.set_role(d, NodeRole::Button);
    tree.flush_dirty();
    tree.mark_dirty(c);
    tree.remove_node(b);
    tree.compact();
    assert_eq!(tree.len(), 4);
    assert_eq!(tree.children_of(NodeId::root()), vec![a]);
    assert_eq!(tree.children_of(a), vec![c]);
    assert_eq!(tree.children_of(c), vec![d]);
    assert_eq!(tree.get(d).unwrap().role, NodeRole::Button);
    assert_eq!(tree.get(d).unwrap().kind, NodeKind::Image);
    assert!(tree.get(c).unwrap().is_dirty());
    assert!(!tree.get(d).unwrap().is_dirty());
}

#[test]
fn iter_lists_live_nodes() {
    let mut tree = NodeTree::new();
    let a = tree.add_node(NodeId::root(), NodeKind::Container);
    let b = tree.add_node(NodeId::root(), NodeKind::Container);
    tree.remove_node(a);
    let ids: Vec<NodeId> = tree.iter().iter().map(|n| n.id).collect();
    assert_eq!(ids, vec![NodeId::root(), b]);
    assert!(!tree.is_empty());
}
