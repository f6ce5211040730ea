//! The generic node shared by both tree implementations.
use vstd::prelude::*;

verus! {

/// The kind of an attribute container node.
pub const VIRTUAL_ATTRIBUTES_TYPE: &'static str = "@attributes";

/// The kind of a single attribute node.
pub const ATTRIBUTE_TYPE: &'static str = "attribute";

/// A key and value pair attached to a node.
#[derive(Debug, Clone)]
pub struct Attribute {
    pub key: String,
    pub value: String,
}

impl View for Attribute {
    type V = (Seq<char>, Seq<char>);

    open spec fn view(&self) -> (Seq<char>, Seq<char>) {
        (self.key@, self.value@)
    }
}

impl Attribute {
    /// An attribute with the given key and value.
    pub fn new(key: &str, value: &str) -> (r: Attribute)
        ensures
            r@ == (key@, value@),
    {
        Attribute { key: key.to_owned(), value: value.to_owned() }
    }
}

/// What a node holds, as mathematical values.
pub struct NodeView {
    pub label: Seq<char>,
    pub node_type: Seq<char>,
    pub attributes: Seq<(Seq<char>, Seq<char>)>,
    pub children: Seq<usize>,
    pub parent_id: Option<usize>,
}

/// One node: label, kind, attributes, child ids and parent id.
#[derive(Debug, Clone)]
pub struct TreeNode {
    pub label: String,
    pub node_type: String,
    pub attributes: Vec<Attribute>,
    pub children: Vec<usize>,
    pub parent_id: Option<usize>,
}

/// The views of a sequence of attributes.
pub open spec fn attrs_view(a: Seq<Attribute>) -> Seq<(Seq<char>, Seq<char>)> {
    a.map_values(|x: Attribute| x@)
}

impl View for TreeNode {
    type V = NodeView;

    open spec fn view(&self) -> NodeView {
        NodeView {
            label: self.label@,
            node_type: self.node_type@,
            attributes: attrs_view(self.attributes@),
            children: self.children@,
            parent_id: self.parent_id,
        }
    }
}

/// A fresh node with no attributes, no children and no parent.
pub open spec fn fresh_node(label: Seq<char>, node_type: Seq<char>) -> NodeView {
    NodeView {
        label,
        node_type,
        attributes: Seq::empty(),
        children: Seq::empty(),
        parent_id: None,
    }
}

impl TreeNode {
    /// A node with the given label and kind, and nothing else.
    pub fn new(label: &str, node_type: &str) -> (r: TreeNode)
        ensures
            r@ == fresh_node(label@, node_type@),
    {
        let r = TreeNode {
            label: label.to_owned(),
            node_type: node_type.to_owned(),
            attributes: Vec::new(),
            children: Vec::new(),
            parent_id: None,
        };
        assert(attrs_view(r.attributes@) =~= Seq::empty());
        r
    }

    /// This node with its attributes replaced by `attributes`.
    pub fn with_attributes(self, attributes: Vec<Attribute>) -> (r: TreeNode)
        ensures
            r@ == (NodeView { attributes: attrs_view(attributes@), ..self@ }),
    {
        let mut n = self;
        n.attributes = attributes;
        n
    }

    /// Appends the attribute `key` = `value`.
    pub fn add_attribute(&mut self, key: &str, value: &str)
        ensures
            final(self)@ == (NodeView {
                attributes: old(self)@.attributes.push((key@, value@)),
                ..old(self)@
            }),
    {
        self.attributes.push(Attribute::new(key, value));
        assert(attrs_view(self.attributes@) =~= attrs_view(old(self).attributes@).push((key@, value@)));
    }

    /// Appends `child_id` to the child list; the child's parent is not touched.
    pub fn add_child(&mut self, child_id: usize)
        ensures
            final(self)@ == (NodeView { children: old(self)@.children.push(child_id), ..old(self)@ }),
    {
        self.children.push(child_id);
    }

    /// Whether the node has at least one child.
    pub fn has_children(&self) -> (r: bool)
        ensures
            r == (self@.children.len() > 0),
    {
        self.children.len() > 0
    }

    /// Whether this node is an attribute container.
    pub fn is_virtual_attributes(&self) -> (r: bool)
        ensures
            r == (self@.node_type == VIRTUAL_ATTRIBUTES_TYPE@),
    {
        let t = crate::text::chars_of(self.node_type.as_str());
        let k = crate::text::chars_of(VIRTUAL_ATTRIBUTES_TYPE);
        crate::text::same_chars(&t, &k)
    }

    /// Whether this node is a single attribute.
    pub fn is_attribute(&self) -> (r: bool)
        ensures
            r == (self@.node_type == ATTRIBUTE_TYPE@),
    {
        let t = crate::text::chars_of(self.node_type.as_str());
        let k = crate::text::chars_of(ATTRIBUTE_TYPE);
        crate::text::same_chars(&t, &k)
    }
}

} // verus!
