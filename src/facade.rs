//! One read-only query contract over both tree implementations.
use vstd::prelude::*;
use crate::ldif::tree_of_index;
use crate::node::{attrs_view, Attribute, NodeView, TreeNode};
use crate::streaming::StreamingTree;
use crate::tree::{children_in, parent_in, Tree};

verus! {

/// The tree that the viewer browses: all in memory, or streamed.
#[derive(Debug)]
pub enum TreeVariant {
    InMemory(Tree),
    Streaming(StreamingTree),
}

/// A copy of `n` with the same view.
pub fn clone_node(n: &TreeNode) -> (r: TreeNode)
    ensures
        r@ == n@,
{
    let mut attributes: Vec<Attribute> = Vec::new();
    let mut i: usize = 0;
    while i < n.attributes.len()
        invariant
            i <= n.attributes@.len(),
            attrs_view(attributes@) == attrs_view(n.attributes@.subrange(0, i as int)),
        decreases n.attributes@.len() - i,
    {
        let a = Attribute { key: n.attributes[i].key.clone(), value: n.attributes[i].value.clone() };
        let ghost before = attributes@;
        attributes.push(a);
        assert(attrs_view(attributes@) =~= attrs_view(before).push(n.attributes@[i as int]@));
        assert(attrs_view(n.attributes@.subrange(0, i + 1)) =~= attrs_view(n.attributes@.subrange(0, i as int)).push(n.attributes@[i as int]@));
        i = i + 1;
    }
    assert(n.attributes@.subrange(0, n.attributes@.len() as int) =~= n.attributes@);
    TreeNode {
        label: n.label.clone(),
        node_type: n.node_type.clone(),
        attributes,
        children: n.children.clone(),
        parent_id: n.parent_id,
    }
}

impl TreeVariant {
    /// The nodes of the tree, by id, whichever implementation holds them.
    pub closed spec fn spec_nodes(&self) -> Seq<NodeView> {
        match self {
            TreeVariant::InMemory(t) => t@,
            TreeVariant::Streaming(t) => tree_of_index(t.spec_index()),
        }
    }

    /// Both implementations keep their invariants and have root 0.
    pub closed spec fn wf(&self) -> bool {
        match self {
            TreeVariant::InMemory(t) => t.wf(),
            TreeVariant::Streaming(t) => t.wf() && t.spec_root_id() == 0,
        }
    }

    /// A facade over an in-memory tree.
    pub fn from_tree(t: Tree) -> (r: TreeVariant)
        requires
            t.wf(),
        ensures
            r.wf(),
            r.spec_nodes() == t@,
    {
        TreeVariant::InMemory(t)
    }

    /// A facade over a streaming tree.
    pub fn from_streaming(t: StreamingTree) -> (r: TreeVariant)
        requires
            t.wf(),
            t.spec_root_id() == 0,
        ensures
            r.wf(),
            r.spec_nodes() == tree_of_index(t.spec_index()),
    {
        TreeVariant::Streaming(t)
    }

    /// A copy of the node with id `id`, if there is one; only the cache of
    /// a streaming tree changes.
    pub fn get_node(&mut self, id: usize) -> (r: Option<TreeNode>)
        requires
            old(self).wf(),
        ensures
            final(self).wf(),
            final(self).spec_nodes() == old(self).spec_nodes(),
            r is Some <==> id < old(self).spec_nodes().len(),
            r is Some ==> r->0@ == old(self).spec_nodes()[id as int],
    {
        match self {
            TreeVariant::InMemory(t) => match t.get_node(id) {
                Some(n) => Some(clone_node(n)),
                None => None,
            },
            TreeVariant::Streaming(t) => t.get_node(id),
        }
    }

    /// The id of the root, 0.
    pub fn root_id(&self) -> (r: usize)
        requires
            self.wf(),
        ensures
            r == 0,
    {
        match self {
            TreeVariant::InMemory(t) => t.root_id(),
            TreeVariant::Streaming(t) => t.root_id(),
        }
    }

    /// The children of `id`, empty when `id` is not a node.
    pub fn get_children(&self, id: usize) -> (r: Vec<usize>)
        ensures
            r@ == children_in(self.spec_nodes(), id as int),
    {
        match self {
            TreeVariant::InMemory(t) => t.get_children(id),
            TreeVariant::Streaming(t) => t.get_children(id),
        }
    }

    /// The number of nodes.
    pub fn node_count(&self) -> (r: usize)
        ensures
            r == self.spec_nodes().len(),
    {
        match self {
            TreeVariant::InMemory(t) => t.node_count(),
            TreeVariant::Streaming(t) => t.node_count(),
        }
    }

    /// The parent of `child_id`; none for the root or a missing id.
    pub fn get_parent(&self, child_id: usize) -> (r: Option<usize>)
        ensures
            r == parent_in(self.spec_nodes(), child_id as int),
    {
        match self {
            TreeVariant::InMemory(t) => t.get_parent(child_id),
            TreeVariant::Streaming(t) => t.get_parent(child_id),
        }
    }
}

} // verus!
