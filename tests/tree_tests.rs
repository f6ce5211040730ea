use xtv::node::{Attribute, TreeNode};
use xtv::tree::Tree;

#[test]
fn test_tree_creation() {
    let root = TreeNode::new("root", "object");
    let tree = Tree::new(root);

    assert_eq!(tree.root_id(), 0);
    assert_eq!(tree.node_count(), 1);

    let root_node = tree.get_node(0).unwrap();
    assert_eq!(root_node.label, "root");
    assert_eq!(root_node.node_type, "object");
}

#[test]
fn test_add_nodes() {
    let root = TreeNode::new("root", "object");
    let mut tree = Tree::new(root);

    let child1 = TreeNode::new("child1", "string");
    let child1_id = tree.add_node(child1);

    let child2 = TreeNode::new("child2", "number");
    let child2_id = tree.add_node(child2);

    tree.get_node_mut(0).unwrap().add_child(child1_id);
    tree.get_node_mut(0).unwrap().add_child(child2_id);

    assert_eq!(tree.node_count(), 3);

    let root_children = tree.get_children(0);
    assert_eq!(root_children.len(), 2);
    assert_eq!(root_children[0], child1_id);
    assert_eq!(root_children[1], child2_id);
}

#[test]
fn add_child_node_links_both_ways() {
    let mut tree = Tree::new(TreeNode::new("root", "root"));
    let a = tree.add_child_node(0, TreeNode::new("a", "object"));
    let b = tree.add_child_node(a, TreeNode::new("b", "text"));
    assert_eq!(tree.get_children(0), vec![a]);
    assert_eq!(tree.get_children(a), vec![b]);
    assert_eq!(tree.get_parent(b), Some(a));
    assert_eq!(tree.get_parent(0), None);
    assert_eq!(tree.get_parent(99), None);
    assert!(tree.get_children(99).is_empty());
    assert!(tree.get_node(99).is_none());
}

#[test]
fn add_child_node_with_missing_parent() {
    let mut tree = Tree::new(TreeNode::new("root", "root"));
    let id = tree.add_child_node(42, TreeNode::new("orphan", "text"));
    assert_eq!(id, 1);
    assert_eq!(tree.get_parent(id), None);
    assert!(tree.get_children(0).is_empty());
    let own = tree.add_child_node(2, TreeNode::new("self", "text"));
    assert_eq!(own, 2);
    assert_eq!(tree.get_parent(own), None);
    assert!(tree.get_children(own).is_empty());
    let mut root = TreeNode::new("root", "root");
    root.parent_id = Some(5);
    assert_eq!(Tree::new(root).get_parent(0), None);
}

#[test]
fn node_builders() {
    let attrs = vec![Attribute::new("id", "1"), Attribute::new("name", "test")];
    let mut node = TreeNode::new("item", "element").with_attributes(attrs);
    assert_eq!(node.attributes.len(), 2);
    node.add_attribute("extra", "x");
    assert_eq!(node.attributes[2].key, "extra");
    assert_eq!(node.attributes[2].value, "x");
    assert!(!node.has_children());
    node.add_child(7);
    assert!(node.has_children());
    assert!(!node.is_attribute());
    assert!(!node.is_virtual_attributes());
    assert!(TreeNode::new("k", "attribute").is_attribute());
    assert!(TreeNode::new("@attributes", "@attributes").is_virtual_attributes());
}
