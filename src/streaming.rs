//! The streaming tree: the structural index plus a bounded cache of
//! rebuilt nodes.
use vstd::prelude::*;
use crate::index::{IndexEntry, LdifIndex, NodeType, entry_children, entry_parent, node_of_entry};
use crate::node::{NodeView, TreeNode, ATTRIBUTE_TYPE, VIRTUAL_ATTRIBUTES_TYPE};
use lru::LruCache;

verus! {

/// How many rebuilt nodes the cache keeps.
pub const STREAMING_CACHE_SIZE: usize = 1000;

/// The least-recently-used cache of `lru`, carried through opaquely.
#[verifier::external_type_specification]
#[verifier::external_body]
#[verifier::reject_recursive_types(K)]
#[verifier::reject_recursive_types(V)]
#[verifier::reject_recursive_types(S)]
pub struct ExLruCache<K, V, S>(LruCache<K, V, S>);

/// The hasher that `lru` caches use by default.
#[verifier::external_type_specification]
#[verifier::external_body]
pub struct ExDefaultHasher(lru::DefaultHasher);

/// The nodes that a cache holds, by id.
pub uninterp spec fn cached_nodes(c: LruCache<usize, TreeNode>) -> Map<usize, NodeView>;

/// The most entries that a cache holds, as it was made.
pub uninterp spec fn cache_capacity(c: LruCache<usize, TreeNode>) -> nat;

/// Relies on `LruCache::new`: an empty cache of capacity `cap`.
#[verifier::external_body]
fn new_cache(cap: usize) -> (r: LruCache<usize, TreeNode>)
    requires
        cap > 0,
    ensures
        cached_nodes(r).dom() == Set::<usize>::empty(),
        cache_capacity(r) == cap,
{
    LruCache::new(std::num::NonZeroUsize::new(cap).unwrap())
}

/// Relies on `LruCache::get`: a copy of the node cached under `id`, if
/// any; only the order of recency changes.
#[verifier::external_body]
fn cache_get(c: &mut LruCache<usize, TreeNode>, id: usize) -> (r: Option<TreeNode>)
    ensures
        cached_nodes(*final(c)) == cached_nodes(*old(c)),
        cache_capacity(*final(c)) == cache_capacity(*old(c)),
        r is Some <==> cached_nodes(*old(c)).contains_key(id),
        r is Some ==> r->0@ == cached_nodes(*old(c))[id],
{
    c.get(&id).cloned()
}

/// Relies on `LruCache::put`: `id` now maps to `node`; every other id keeps
/// its node or has been evicted; the capacity bounds the size.
#[verifier::external_body]
fn cache_put(c: &mut LruCache<usize, TreeNode>, id: usize, node: TreeNode)
    ensures
        cached_nodes(*final(c)).contains_key(id),
        cached_nodes(*final(c))[id] == node@,
        forall|k: usize| #[trigger] cached_nodes(*final(c)).contains_key(k) && k != id
            ==> cached_nodes(*old(c)).contains_key(k)
            && cached_nodes(*final(c))[k] == cached_nodes(*old(c))[k],
        cached_nodes(*final(c)).len() <= cache_capacity(*final(c)),
        cache_capacity(*final(c)) == cache_capacity(*old(c)),
{
    c.put(id, node);
}

/// The node rebuilt from the entry `e`, with no disk access.
pub fn node_from_entry(e: &IndexEntry) -> (r: TreeNode)
    ensures
        r@ == node_of_entry(e@),
{
    let mut node = match &e.node_type {
        NodeType::Root => TreeNode::new("root", "root"),
        NodeType::Entry { rdn, .. } => TreeNode::new(rdn.as_str(), "entry"),
        NodeType::VirtualAttributes => TreeNode::new(VIRTUAL_ATTRIBUTES_TYPE, VIRTUAL_ATTRIBUTES_TYPE),
        NodeType::Attribute { key, value } => {
            let mut n = TreeNode::new(key.as_str(), ATTRIBUTE_TYPE);
            n.add_attribute("value", value.as_str());
            n
        },
    };
    node.children = e.children.clone();
    node.parent_id = e.parent_id;
    node
}

/// The structural index with a bounded cache of rebuilt nodes.
#[derive(Debug)]
pub struct StreamingTree {
    index: LdifIndex,
    cache: LruCache<usize, TreeNode>,
}

/// The node that `id` stands for in `es`, if `id` is an entry.
pub open spec fn node_at(es: Seq<crate::index::EntryView>, id: int) -> Option<NodeView> {
    if 0 <= id < es.len() {
        Some(node_of_entry(es[id]))
    } else {
        None
    }
}

impl StreamingTree {
    /// The index that the tree answers from.
    pub closed spec fn spec_index(&self) -> Seq<crate::index::EntryView> {
        self.index@
    }

    /// The id that the tree gives as its root.
    pub closed spec fn spec_root_id(&self) -> usize {
        self.index.spec_root_id()
    }

    /// The nodes cached now, by id.
    pub closed spec fn spec_cached(&self) -> Map<usize, NodeView> {
        cached_nodes(self.cache)
    }

    /// Every cached node is the one its entry rebuilds to, and the cache
    /// stays within its capacity.
    pub closed spec fn wf(&self) -> bool {
        &&& cache_capacity(self.cache) == STREAMING_CACHE_SIZE
        &&& cached_nodes(self.cache).len() <= STREAMING_CACHE_SIZE
        &&& forall|k: usize| #[trigger]
            cached_nodes(self.cache).contains_key(k) ==> k < self.index@.len()
                && cached_nodes(self.cache)[k] == node_of_entry(self.index@[k as int])
    }

    /// A streaming tree over `index`, with an empty cache.
    pub fn new(index: LdifIndex) -> (r: StreamingTree)
        ensures
            r.wf(),
            r.spec_index() == index@,
            r.spec_root_id() == index.spec_root_id(),
            r.spec_cached().dom() == Set::<usize>::empty(),
            r.spec_cached().len() <= STREAMING_CACHE_SIZE,
    {
        StreamingTree { index, cache: new_cache(STREAMING_CACHE_SIZE) }
    }

    /// The id of the root.
    pub fn root_id(&self) -> (r: usize)
        ensures
            r == self.spec_root_id(),
    {
        self.index.root_id()
    }

    /// The node with id `id`, served from the cache or rebuilt from the
    /// index; either way it is the node that the index describes.
    pub fn get_node(&mut self, id: usize) -> (r: Option<TreeNode>)
        requires
            old(self).wf(),
        ensures
            final(self).wf(),
            final(self).spec_index() == old(self).spec_index(),
            final(self).spec_root_id() == old(self).spec_root_id(),
            r is Some <==> id < old(self).spec_index().len(),
            r is Some ==> node_at(old(self).spec_index(), id as int) == Some(r->0@),
            r is Some ==> final(self).spec_cached().contains_key(id),
            final(self).spec_cached().len() <= STREAMING_CACHE_SIZE,
            forall|k: usize| #[trigger] final(self).spec_cached().contains_key(k) ==> node_at(
                final(self).spec_index(),
                k as int,
            ) == Some(final(self).spec_cached()[k]),
    {
        let hit = cache_get(&mut self.cache, id);
        match hit {
            Some(node) => {
                assert(cached_nodes(self.cache) == cached_nodes(old(self).cache));
                assert(cached_nodes(old(self).cache).contains_key(id));
                assert(id < self.index@.len());
                assert(node@ == node_of_entry(self.index@[id as int]));
                Some(node)
            },
            None => {
                match self.index.get_entry(id) {
                    Some(entry) => {
                        let node = node_from_entry(entry);
                        let copy = node_from_entry(entry);
                        let ghost before = cached_nodes(self.cache);
                        cache_put(&mut self.cache, id, node);
                        assert forall|k: usize| #[trigger]
                            cached_nodes(self.cache).contains_key(k) implies k < self.index@.len()
                            && cached_nodes(self.cache)[k] == node_of_entry(self.index@[k as int]) by {
                            if k != id {
                                assert(before.contains_key(k));
                            }
                        }
                        Some(copy)
                    },
                    None => None,
                }
            },
        }
    }

    /// The children of `id`, from the index alone.
    pub fn get_children(&self, id: usize) -> (r: Vec<usize>)
        ensures
            r@ == entry_children(self.spec_index(), id as int),
    {
        match self.index.get_entry(id) {
            Some(entry) => entry.children.clone(),
            None => Vec::new(),
        }
    }

    /// The parent of `child_id`, from the index alone.
    pub fn get_parent(&self, child_id: usize) -> (r: Option<usize>)
        ensures
            r == entry_parent(self.spec_index(), child_id as int),
    {
        match self.index.get_entry(child_id) {
            Some(entry) => entry.parent_id,
            None => None,
        }
    }

    /// The number of nodes in the index.
    pub fn node_count(&self) -> (r: usize)
        ensures
            r == self.spec_index().len(),
    {
        self.index.len()
    }
}

} // verus!
