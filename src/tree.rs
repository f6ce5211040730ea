//! The in-memory arena tree.
use vstd::prelude::*;
use crate::node::{NodeView, TreeNode};

verus! {

/// Nodes kept in insertion order; a node's id is its position.
#[derive(Debug)]
pub struct Tree {
    nodes: Vec<TreeNode>,
    root_id: usize,
}

/// The children of `id` in `nodes`, or none when `id` is not a node.
pub open spec fn children_in(nodes: Seq<NodeView>, id: int) -> Seq<usize> {
    if 0 <= id < nodes.len() {
        nodes[id].children
    } else {
        Seq::empty()
    }
}

/// The parent of `id` in `nodes`, or none when `id` is not a node.
pub open spec fn parent_in(nodes: Seq<NodeView>, id: int) -> Option<usize> {
    if 0 <= id < nodes.len() {
        nodes[id].parent_id
    } else {
        None
    }
}

impl View for Tree {
    type V = Seq<NodeView>;

    closed spec fn view(&self) -> Seq<NodeView> {
        self.nodes@.map_values(|n: TreeNode| n@)
    }
}

impl Tree {
    /// The tree holds its root and the root is node 0.
    pub closed spec fn wf(&self) -> bool {
        self.nodes@.len() >= 1 && self.root_id == 0
    }

    /// A well-formed tree holds at least its root.
    pub proof fn lemma_wf_len(&self)
        requires
            self.wf(),
        ensures
            self@.len() >= 1,
    {
    }

    /// A tree whose only node is `root`, with id 0; the root has no parent.
    pub fn new(root: TreeNode) -> (r: Tree)
        ensures
            r.wf(),
            r@ == seq![NodeView { parent_id: None, ..root@ }],
            r@[0].parent_id is None,
    {
        let ghost given = root@;
        let mut root = root;
        root.parent_id = None;
        assert(root@ == (NodeView { parent_id: None, ..given }));
        let r = Tree { nodes: vec![root], root_id: 0 };
        assert(r@ =~= seq![NodeView { parent_id: None, ..given }]);
        r
    }

    /// Appends `node` and returns its id, its position; no link is made.
    pub fn add_node(&mut self, node: TreeNode) -> (id: usize)
        requires
            old(self).wf(),
            old(self)@.len() < usize::MAX,
        ensures
            final(self).wf(),
            id == old(self)@.len(),
            final(self)@ == old(self)@.push(node@),
    {
        let id = self.nodes.len();
        self.nodes.push(node);
        assert(self@ =~= old(self)@.push(node@));
        id
    }

    /// Appends `node` as the last child of `parent_id` and returns its id.
    /// When `parent_id` is not a node already in the tree the call fails
    /// silently: the node is added without a parent and no child list
    /// changes.
    pub fn add_child_node(&mut self, parent_id: usize, node: TreeNode) -> (id: usize)
        requires
            old(self).wf(),
            old(self)@.len() < usize::MAX,
        ensures
            final(self).wf(),
            id == old(self)@.len(),
            final(self)@.len() == old(self)@.len() + 1,
            final(self)@[id as int] == (NodeView {
                parent_id: if parent_id < old(self)@.len() { Some(parent_id) } else { None },
                ..node@
            }),
            forall|k: int| 0 <= k < old(self)@.len() && k != parent_id ==> final(self)@[k] == old(self)@[k],
            parent_id < old(self)@.len() ==> final(self)@[parent_id as int] == (NodeView {
                children: old(self)@[parent_id as int].children.push(id),
                ..old(self)@[parent_id as int]
            }),
    {
        let ghost given = node@;
        let valid = parent_id < self.nodes.len();
        let mut node = node;
        node.parent_id = if valid { Some(parent_id) } else { None };
        assert(node@ == (NodeView { parent_id: if valid { Some(parent_id) } else { None }, ..given }));
        let id = self.add_node(node);
        let ghost mid = self@;
        assert(self.nodes@.len() == mid.len());
        if valid {
            let ghost before = self.nodes@;
            self.nodes[parent_id].children.push(id);
            let ghost updated = NodeView { children: mid[parent_id as int].children.push(id), ..mid[parent_id as int] };
            assert(self.nodes@[parent_id as int]@ == updated);
            assert(forall|k: int| 0 <= k < before.len() && k != parent_id ==> self.nodes@[k] == before[k]);
            assert(self@ =~= mid.update(parent_id as int, updated));
        }
        id
    }

    /// The node with id `id`, if there is one.
    pub fn get_node(&self, id: usize) -> (r: Option<&TreeNode>)
        ensures
            r is Some <==> id < self@.len(),
            r is Some ==> r->0@ == self@[id as int],
    {
        if id < self.nodes.len() {
            Some(&self.nodes[id])
        } else {
            None
        }
    }

    /// A mutable reference to the node with id `id`, if there is one.
    pub fn get_node_mut(&mut self, id: usize) -> (r: Option<&mut TreeNode>)
        requires
            old(self).wf(),
        ensures
            r is Some <==> id < old(self)@.len(),
            r is None ==> *final(self) == *old(self),
            r is Some ==> (*r->0)@ == old(self)@[id as int],
            r is Some ==> final(self).wf() && final(self)@ == old(self)@.update(id as int, (*final(r->0))@),
    {
        if id < self.nodes.len() {
            Some(&mut self.nodes[id])
        } else {
            None
        }
    }

    /// The id of the root, always 0.
    pub fn root_id(&self) -> (r: usize)
        requires
            self.wf(),
        ensures
            r == 0,
    {
        self.root_id
    }

    /// A copy of the child list of `id`; empty when `id` is not a node.
    pub fn get_children(&self, id: usize) -> (r: Vec<usize>)
        ensures
            r@ == children_in(self@, id as int),
    {
        if id < self.nodes.len() {
            self.nodes[id].children.clone()
        } else {
            Vec::new()
        }
    }

    /// The number of nodes, root included.
    pub fn node_count(&self) -> (r: usize)
        ensures
            r == self@.len(),
    {
        self.nodes.len()
    }

    /// The parent of `child_id`; none for the root or a missing id.
    pub fn get_parent(&self, child_id: usize) -> (r: Option<usize>)
        ensures
            r == parent_in(self@, child_id as int),
    {
        if child_id < self.nodes.len() {
            self.nodes[child_id].parent_id
        } else {
            None
        }
    }
}

} // verus!
