//! The structural index of a record file: one entry per node.
use vstd::prelude::*;
use crate::node::{NodeView, fresh_node, ATTRIBUTE_TYPE, VIRTUAL_ATTRIBUTES_TYPE};

verus! {

/// What an index entry stands for, with all that its node displays.
#[derive(Debug, Clone)]
pub enum NodeType {
    /// The synthetic root.
    Root,
    /// A record, with its full key and its key relative to its parent.
    Entry { dn: String, rdn: String },
    /// The container of a record's attributes.
    VirtualAttributes,
    /// One attribute value.
    Attribute { key: String, value: String },
}

/// The mathematical value of a `NodeType`.
pub enum NodeTypeView {
    Root,
    Entry { dn: Seq<char>, rdn: Seq<char> },
    VirtualAttributes,
    Attribute { key: Seq<char>, value: Seq<char> },
}

impl View for NodeType {
    type V = NodeTypeView;

    open spec fn view(&self) -> NodeTypeView {
        match self {
            NodeType::Root => NodeTypeView::Root,
            NodeType::Entry { dn, rdn } => NodeTypeView::Entry { dn: dn@, rdn: rdn@ },
            NodeType::VirtualAttributes => NodeTypeView::VirtualAttributes,
            NodeType::Attribute { key, value } => NodeTypeView::Attribute {
                key: key@,
                value: value@,
            },
        }
    }
}

/// One node of the index.
#[derive(Debug, Clone)]
pub struct IndexEntry {
    /// Byte position of the record in the source; 0 for synthesized nodes.
    pub offset: u64,
    pub parent_id: Option<usize>,
    pub children: Vec<usize>,
    pub node_type: NodeType,
}

/// The mathematical value of an `IndexEntry`.
pub struct EntryView {
    pub offset: u64,
    pub parent_id: Option<usize>,
    pub children: Seq<usize>,
    pub node_type: NodeTypeView,
}

impl View for IndexEntry {
    type V = EntryView;

    open spec fn view(&self) -> EntryView {
        EntryView {
            offset: self.offset,
            parent_id: self.parent_id,
            children: self.children@,
            node_type: self.node_type@,
        }
    }
}

/// The label and kind of the node that an entry stands for.
pub open spec fn shape_of(t: NodeTypeView) -> NodeView {
    match t {
        NodeTypeView::Root => fresh_node("root"@, "root"@),
        NodeTypeView::Entry { rdn, .. } => fresh_node(rdn, "entry"@),
        NodeTypeView::VirtualAttributes => fresh_node(
            VIRTUAL_ATTRIBUTES_TYPE@,
            VIRTUAL_ATTRIBUTES_TYPE@,
        ),
        NodeTypeView::Attribute { key, value } => NodeView {
            attributes: seq![("value"@, value)],
            ..fresh_node(key, ATTRIBUTE_TYPE@)
        },
    }
}

/// The node rebuilt from an index entry alone.
pub open spec fn node_of_entry(e: EntryView) -> NodeView {
    NodeView { children: e.children, parent_id: e.parent_id, ..shape_of(e.node_type) }
}

impl IndexEntry {
    /// An entry with no children.
    pub fn new(offset: u64, parent_id: Option<usize>, node_type: NodeType) -> (r: IndexEntry)
        ensures
            r@ == (EntryView { offset, parent_id, children: Seq::empty(), node_type: node_type@ }),
    {
        let r = IndexEntry { offset, parent_id, children: Vec::new(), node_type };
        assert(r.children@ =~= Seq::<usize>::empty());
        r
    }
}

/// All entries of a file, a node's id being its position.
#[derive(Debug)]
pub struct LdifIndex {
    entries: Vec<IndexEntry>,
    root_id: usize,
}

impl View for LdifIndex {
    type V = Seq<EntryView>;

    closed spec fn view(&self) -> Seq<EntryView> {
        self.entries@.map_values(|e: IndexEntry| e@)
    }
}

/// The children of `id`, or none when `id` is not an entry.
pub open spec fn entry_children(es: Seq<EntryView>, id: int) -> Seq<usize> {
    if 0 <= id < es.len() {
        es[id].children
    } else {
        Seq::empty()
    }
}

/// The parent of `id`, or none when `id` is not an entry.
pub open spec fn entry_parent(es: Seq<EntryView>, id: int) -> Option<usize> {
    if 0 <= id < es.len() {
        es[id].parent_id
    } else {
        None
    }
}

impl LdifIndex {
    /// The id that the index gives as its root.
    pub closed spec fn spec_root_id(&self) -> usize {
        self.root_id
    }

    /// An index with no entries, whose root will have id `root_id`.
    pub fn new(root_id: usize) -> (r: LdifIndex)
        ensures
            r@ == Seq::<EntryView>::empty(),
            r.spec_root_id() == root_id,
    {
        let r = LdifIndex { entries: Vec::new(), root_id };
        assert(r@ =~= Seq::<EntryView>::empty());
        r
    }

    /// Appends `entry` and returns its id.
    pub fn add_entry(&mut self, entry: IndexEntry) -> (id: usize)
        requires
            old(self)@.len() < usize::MAX,
        ensures
            id == old(self)@.len(),
            final(self)@ == old(self)@.push(entry@),
            final(self).spec_root_id() == old(self).spec_root_id(),
    {
        let id = self.entries.len();
        self.entries.push(entry);
        assert(self@ =~= old(self)@.push(entry@));
        id
    }

    /// The entry with id `id`, if there is one.
    pub fn get_entry(&self, id: usize) -> (r: Option<&IndexEntry>)
        ensures
            r is Some <==> id < self@.len(),
            r is Some ==> r->0@ == self@[id as int],
    {
        if id < self.entries.len() {
            Some(&self.entries[id])
        } else {
            None
        }
    }

    /// A mutable reference to the entry with id `id`, if there is one.
    pub fn get_entry_mut(&mut self, id: usize) -> (r: Option<&mut IndexEntry>)
        ensures
            r is Some <==> id < old(self)@.len(),
            r is None ==> final(self)@ == old(self)@,
            r is Some ==> (*r->0)@ == old(self)@[id as int],
            r is Some ==> final(self)@ == old(self)@.update(id as int, (*final(r->0))@),
            final(self).spec_root_id() == old(self).spec_root_id(),
    {
        if id < self.entries.len() {
            Some(&mut self.entries[id])
        } else {
            None
        }
    }

    /// Appends `child_id` to the children of `parent_id`; nothing happens
    /// when `parent_id` is not an entry.
    pub fn add_child(&mut self, parent_id: usize, child_id: usize)
        ensures
            final(self).spec_root_id() == old(self).spec_root_id(),
            parent_id < old(self)@.len() ==> final(self)@ == old(self)@.update(
                parent_id as int,
                EntryView {
                    children: old(self)@[parent_id as int].children.push(child_id),
                    ..old(self)@[parent_id as int]
                },
            ),
            parent_id >= old(self)@.len() ==> final(self)@ == old(self)@,
    {
        if parent_id < self.entries.len() {
            let ghost before = self@;
            self.entries[parent_id].children.push(child_id);
            assert(self@ =~= before.update(
                parent_id as int,
                EntryView { children: before[parent_id as int].children.push(child_id), ..before[parent_id as int] },
            ));
        }
    }

    /// The number of entries.
    pub fn len(&self) -> (r: usize)
        ensures
            r == self@.len(),
    {
        self.entries.len()
    }

    /// Whether there are no entries.
    pub fn is_empty(&self) -> (r: bool)
        ensures
            r == (self@.len() == 0),
    {
        self.entries.len() == 0
    }

    /// The id of the root.
    pub fn root_id(&self) -> (r: usize)
        ensures
            r == self.spec_root_id(),
    {
        self.root_id
    }
}

} // verus!
