//! Building the structural index, one record at a time, in file order.
use vstd::prelude::*;
use std::collections::HashMap;
use crate::attrs::{pairs_view, group_attributes, groups_of, indexed_label_of, items_of, group_items, groups_view, AttrGroup};
use crate::dn::{compute_rdn, get_parent_dn, parent_key, relative_key};
use crate::index::{EntryView, IndexEntry, LdifIndex, NodeType, NodeTypeView};

verus! {

broadcast use vstd::std_specs::hash::group_hash_axioms;

/// A record as the index builder takes it.
pub struct RecordView {
    pub offset: u64,
    pub dn: Seq<char>,
    pub attrs: Seq<(Seq<char>, Seq<char>)>,
}

/// The entry of the synthetic root.
pub open spec fn root_entry() -> EntryView {
    EntryView { offset: 0, parent_id: None, children: Seq::empty(), node_type: NodeTypeView::Root }
}

/// Whether `e` is the entry of a record whose full key is `key`.
pub open spec fn is_record_with(e: EntryView, key: Seq<char>) -> bool {
    match e.node_type {
        NodeTypeView::Entry { dn, .. } => dn == key,
        _ => false,
    }
}

/// The full key of a record entry; empty for other entries.
pub open spec fn key_of(e: EntryView) -> Seq<char> {
    match e.node_type {
        NodeTypeView::Entry { dn, .. } => dn,
        _ => Seq::empty(),
    }
}

/// The last record among the first `n` entries whose full key is `key`.
pub open spec fn resolve_upto(es: Seq<EntryView>, n: int, key: Seq<char>) -> Option<usize>
    decreases n,
{
    if n <= 0 {
        None
    } else if is_record_with(es[n - 1], key) {
        Some((n - 1) as usize)
    } else {
        resolve_upto(es, n - 1, key)
    }
}

/// The record that a key names so far: the last one read with that key.
pub open spec fn resolve(es: Seq<EntryView>, key: Seq<char>) -> Option<usize> {
    resolve_upto(es, es.len() as int, key)
}

/// The parent of a new record with key `dn`: the record named by its parent
/// key if one was read before, the root otherwise.
pub open spec fn parent_of_record(es: Seq<EntryView>, dn: Seq<char>) -> usize {
    match parent_key(dn) {
        Some(p) => match resolve(es, p) {
            Some(j) => j,
            None => 0,
        },
        None => 0,
    }
}

/// The label of a new record: its key relative to its resolved parent, or
/// its whole key under the root.
pub open spec fn label_of_record(es: Seq<EntryView>, dn: Seq<char>) -> Seq<char> {
    if parent_of_record(es, dn) == 0 {
        relative_key(dn, None)
    } else {
        relative_key(dn, parent_key(dn))
    }
}

/// `es` with `c` appended to the children of `p`.
pub open spec fn with_child(es: Seq<EntryView>, p: int, c: usize) -> Seq<EntryView> {
    es.update(p, EntryView { children: es[p].children.push(c), ..es[p] })
}

/// The entry of one attribute value under container `cid`.
pub open spec fn attribute_entry(cid: usize, item: (Seq<char>, Seq<char>)) -> EntryView {
    EntryView {
        offset: 0,
        parent_id: Some(cid),
        children: Seq::empty(),
        node_type: NodeTypeView::Attribute { key: item.0, value: item.1 },
    }
}

/// `es` with one attribute entry per item, each a child of `cid`.
pub open spec fn attribute_entries(
    es: Seq<EntryView>,
    cid: usize,
    items: Seq<(Seq<char>, Seq<char>)>,
) -> Seq<EntryView>
    decreases items.len(),
{
    if items.len() == 0 {
        es
    } else {
        let e = attribute_entries(es, cid, items.drop_last());
        with_child(e.push(attribute_entry(cid, items.last())), cid as int, e.len() as usize)
    }
}

/// The attributes of a record, its own key first under the name `dn`.
pub open spec fn all_attributes(r: RecordView) -> Seq<(Seq<char>, Seq<char>)> {
    seq![("dn"@, r.dn)] + r.attrs
}

/// The attribute nodes of a record, as label and value.
pub open spec fn record_items(r: RecordView) -> Seq<(Seq<char>, Seq<char>)> {
    items_of(groups_of(all_attributes(r)))
}

/// `es` with the entries of record `r`: the record under its parent, its
/// attribute container, and the attribute values in key order.
pub open spec fn append_record(es: Seq<EntryView>, r: RecordView) -> Seq<EntryView> {
    let pid = parent_of_record(es, r.dn);
    let rid = es.len() as usize;
    let rec = EntryView {
        offset: r.offset,
        parent_id: Some(pid),
        children: Seq::empty(),
        node_type: NodeTypeView::Entry { dn: r.dn, rdn: label_of_record(es, r.dn) },
    };
    let e1 = with_child(es.push(rec), pid as int, rid);
    let cid = (rid + 1) as usize;
    let cont = EntryView {
        offset: 0,
        parent_id: Some(rid),
        children: Seq::empty(),
        node_type: NodeTypeView::VirtualAttributes,
    };
    let e2 = with_child(e1.push(cont), rid as int, cid);
    attribute_entries(e2, cid, record_items(r))
}

/// The index of a sequence of records read in order.
pub open spec fn index_of(rs: Seq<RecordView>) -> Seq<EntryView>
    decreases rs.len(),
{
    if rs.len() == 0 {
        seq![root_entry()]
    } else {
        append_record(index_of(rs.drop_last()), rs.last())
    }
}

/// The hash under which a record key is filed.
pub open spec fn key_hash(s: Seq<char>) -> u64
    decreases s.len(),
{
    if s.len() == 0 {
        0
    } else {
        ((key_hash(s.drop_last()) * 31 + (s.last() as u32)) % 1_000_000_007) as u64
    }
}

/// Every record is filed under the hash of its key, and each bucket lists
/// record ids in increasing order.
pub open spec fn buckets_ok(es: Seq<EntryView>, b: Map<u64, Vec<usize>>) -> bool {
    &&& forall|j: int| 0 <= j < es.len() && (#[trigger] es[j]).node_type is Entry ==> b.contains_key(key_hash(key_of(es[j])))
        && b[key_hash(key_of(es[j]))]@.contains(j as usize)
    &&& forall|h: u64, m: int| b.contains_key(h) && 0 <= m < b[h]@.len() ==> (#[trigger] b[h]@[m]) < es.len()
        && es[b[h]@[m] as int].node_type is Entry && key_hash(key_of(es[b[h]@[m] as int])) == h
    &&& forall|h: u64, m1: int, m2: int| #![trigger b[h]@[m1], b[h]@[m2]] b.contains_key(h) && 0 <= m1 < m2 < b[h]@.len() ==> b[h]@[m1] < b[h]@[m2]
}

/// `es2` keeps the kinds of the entries of `es` and adds no record.
pub open spec fn grows_without_records(es: Seq<EntryView>, es2: Seq<EntryView>) -> bool {
    &&& es.len() <= es2.len()
    &&& forall|j: int| 0 <= j < es.len() ==> (#[trigger] es2[j]).node_type == es[j].node_type
    &&& forall|j: int| es.len() <= j < es2.len() ==> !((#[trigger] es2[j]).node_type is Entry)
}

proof fn lemma_buckets_grow(es: Seq<EntryView>, es2: Seq<EntryView>, b: Map<u64, Vec<usize>>)
    requires
        buckets_ok(es, b),
        grows_without_records(es, es2),
    ensures
        buckets_ok(es2, b),
{
    assert forall|j: int| 0 <= j < es2.len() && (#[trigger] es2[j]).node_type is Entry implies b.contains_key(key_hash(key_of(es2[j])))
        && b[key_hash(key_of(es2[j]))]@.contains(j as usize) by {
        assert(j < es.len());
        assert(es[j].node_type is Entry);
        assert(key_of(es2[j]) == key_of(es[j]));
    }
    assert forall|h: u64, m: int| b.contains_key(h) && 0 <= m < b[h]@.len() implies (#[trigger] b[h]@[m]) < es2.len()
        && es2[b[h]@[m] as int].node_type is Entry && key_hash(key_of(es2[b[h]@[m] as int])) == h by {
        let j = b[h]@[m] as int;
        assert(j < es.len());
        assert(es2[j].node_type == es[j].node_type);
        assert(key_of(es2[j]) == key_of(es[j]));
    }
}

proof fn lemma_resolve_found(es: Seq<EntryView>, n: int, key: Seq<char>, j: int)
    requires
        0 <= j < n <= es.len(),
        is_record_with(es[j], key),
        forall|k: int| j < k < n ==> !is_record_with(#[trigger] es[k], key),
    ensures
        resolve_upto(es, n, key) == Some(j as usize),
    decreases n,
{
    if n - 1 != j {
        lemma_resolve_found(es, n - 1, key, j);
    }
}

proof fn lemma_resolve_none(es: Seq<EntryView>, n: int, key: Seq<char>)
    requires
        0 <= n <= es.len(),
        forall|k: int| 0 <= k < n ==> !is_record_with(#[trigger] es[k], key),
    ensures
        resolve_upto(es, n, key) is None,
    decreases n,
{
    if n > 0 {
        lemma_resolve_none(es, n - 1, key);
    }
}

proof fn lemma_resolve_prefix(es: Seq<EntryView>, es2: Seq<EntryView>, n: int, key: Seq<char>)
    requires
        0 <= n <= es.len(),
        n <= es2.len(),
        forall|j: int| 0 <= j < n ==> (#[trigger] es2[j]).node_type == es[j].node_type,
    ensures
        resolve_upto(es2, n, key) == resolve_upto(es, n, key),
    decreases n,
{
    if n > 0 {
        assert(es2[n - 1].node_type == es[n - 1].node_type);
        lemma_resolve_prefix(es, es2, n - 1, key);
    }
}

/// The hash of a key, computed as `key_hash` states it.
pub fn hash_key(s: &Vec<char>) -> (r: u64)
    ensures
        r == key_hash(s@),
{
    let mut h: u64 = 0;
    let mut i: usize = 0;
    while i < s.len()
        invariant
            i <= s@.len(),
            h == key_hash(s@.subrange(0, i as int)),
            h < 1_000_000_007,
        decreases s@.len() - i,
    {
        let c = s[i] as u32;
        assert(h * 31 + c < 0x1_0000_0000_0000_0000) by (nonlinear_arith)
            requires
                h < 1_000_000_007,
                c <= 0xFFFF_FFFF,
        ;
        let ghost t = s@.subrange(0, i + 1);
        assert(t.drop_last() =~= s@.subrange(0, i as int));
        h = (h * 31 + c as u64) % 1_000_000_007;
        i = i + 1;
    }
    assert(s@.subrange(0, s@.len() as int) =~= s@);
    h
}

/// Builds the structural index record by record, resolving each record's
/// parent from the records read before it.
pub struct IndexBuilder {
    index: LdifIndex,
    buckets: HashMap<u64, Vec<usize>>,
    records: Ghost<Seq<RecordView>>,
}

impl IndexBuilder {
    /// The records added so far.
    pub closed spec fn spec_records(&self) -> Seq<RecordView> {
        self.records@
    }

    /// The entries built so far.
    pub closed spec fn spec_entries(&self) -> Seq<EntryView> {
        self.index@
    }

    /// The index is the index of the records added so far.
    pub closed spec fn wf(&self) -> bool {
        &&& self.index@ == index_of(self.records@)
        &&& self.index.spec_root_id() == 0
        &&& self.index@.len() >= 1
        &&& buckets_ok(self.index@, self.buckets@)
    }

    /// A builder holding only the root.
    pub fn new() -> (r: IndexBuilder)
        ensures
            r.wf(),
            r.spec_records() == Seq::<RecordView>::empty(),
    {
        let mut index = LdifIndex::new(0);
        index.add_entry(IndexEntry::new(0, None, NodeType::Root));
        let r = IndexBuilder { index, buckets: HashMap::new(), records: Ghost(Seq::empty()) };
        assert(r.index@ =~= seq![root_entry()]);
        r
    }

    /// The last record read whose full key is `key`.
    fn find_record(&self, key: &Vec<char>) -> (r: Option<usize>)
        requires
            buckets_ok(self.index@, self.buckets@),
        ensures
            r == resolve(self.index@, key@),
    {
        let ghost es = self.index@;
        let _n = self.index.len();
        let h = hash_key(key);
        match self.buckets.get(&h) {
            None => {
                proof {
                    assert forall|k: int| 0 <= k < es.len() implies !is_record_with(#[trigger] es[k], key@) by {
                        if is_record_with(es[k], key@) {
                            assert(es[k].node_type is Entry);
                            assert(key_of(es[k]) == key@);
                        }
                    }
                    lemma_resolve_none(es, es.len() as int, key@);
                }
                None
            },
            Some(bucket) => {
                let mut m = bucket.len();
                while m > 0
                    invariant
                        m <= bucket@.len(),
                        self.buckets@.contains_key(h),
                        self.buckets@[h] == *bucket,
                        es == self.index@,
                        buckets_ok(es, self.buckets@),
                        h == key_hash(key@),
                        es.len() <= usize::MAX,
                        forall|m2: int| m <= m2 < bucket@.len() ==> !is_record_with(#[trigger] es[bucket@[m2] as int], key@),
                    decreases m,
                {
                    let id = bucket[m - 1];
                    assert(self.buckets@[h]@.len() == bucket@.len());
                    match self.index.get_entry(id) {
                        Some(entry) => {
                            match &entry.node_type {
                                NodeType::Entry { dn, .. } => {
                                    let dc = crate::text::chars_of(dn.as_str());
                                    if crate::text::same_chars(&dc, key) {
                                        proof {
                                            assert forall|k: int| id < k < es.len() implies !is_record_with(#[trigger] es[k], key@) by {
                                                if is_record_with(es[k], key@) {
                                                    assert(es[k].node_type is Entry);
                                                    assert(key_of(es[k]) == key@);
                                                    assert(self.buckets@[h]@.contains(k as usize));
                                                    let bi = bucket@.index_of(k as usize);
                                                    assert(bucket@[bi] == k as usize);
                                                    let bb = self.buckets@[h]@;
                                                    assert(bb[bi] == k as usize);
                                                    if bi < m - 1 {
                                                        assert(bb[bi] < bb[m - 1]);
                                                    } else if bi == m - 1 {
                                                    } else {
                                                        assert(!is_record_with(es[bucket@[bi] as int], key@));
                                                    }
                                                }
                                            }
                                            lemma_resolve_found(es, es.len() as int, key@, id as int);
                                        }
                                        return Some(id);
                                    }
                                },
                                _ => {},
                            }
                        },
                        None => {},
                    }
                    m = m - 1;
                }
                proof {
                    assert forall|k: int| 0 <= k < es.len() implies !is_record_with(#[trigger] es[k], key@) by {
                        if is_record_with(es[k], key@) {
                            assert(es[k].node_type is Entry);
                            assert(key_of(es[k]) == key@);
                            assert(self.buckets@[h]@.contains(k as usize));
                            let bi = bucket@.index_of(k as usize);
                            assert(bucket@[bi] == k as usize);
                        }
                    }
                    lemma_resolve_none(es, es.len() as int, key@);
                }
                None
            },
        }
    }
}


pub(crate) proof fn lemma_resolve_bound(es: Seq<EntryView>, n: int, key: Seq<char>)
    requires
        0 <= n <= es.len(),
        es.len() <= usize::MAX,
    ensures
        resolve_upto(es, n, key) is Some ==> resolve_upto(es, n, key)->0 < n && is_record_with(
            es[resolve_upto(es, n, key)->0 as int],
            key,
        ),
    decreases n,
{
    if n > 0 {
        lemma_resolve_bound(es, n - 1, key);
    }
}

proof fn lemma_child_grows(es: Seq<EntryView>, e: EntryView, p: int)
    requires
        0 <= p < es.len(),
        !(e.node_type is Entry),
    ensures
        grows_without_records(es, with_child(es.push(e), p, es.len() as usize)),
{
    let es2 = with_child(es.push(e), p, es.len() as usize);
    assert forall|j: int| 0 <= j < es.len() implies (#[trigger] es2[j]).node_type == es[j].node_type by {
        if j == p {
        } else {
            assert(es2[j] == es[j]);
        }
    }
}

proof fn lemma_register(es0: Seq<EntryView>, e1: Seq<EntryView>, b: Map<u64, Vec<usize>>, nb: Vec<usize>, h: u64)
    requires
        buckets_ok(es0, b),
        e1.len() == es0.len() + 1,
        forall|j: int| 0 <= j < es0.len() ==> (#[trigger] e1[j]).node_type == es0[j].node_type,
        e1[es0.len() as int].node_type is Entry,
        key_hash(key_of(e1[es0.len() as int])) == h,
        b.contains_key(h) ==> nb@ == b[h]@.push(es0.len() as usize),
        !b.contains_key(h) ==> nb@ == seq![es0.len() as usize],
        es0.len() < usize::MAX,
    ensures
        buckets_ok(e1, b.insert(h, nb)),
{
    let b2 = b.insert(h, nb);
    let rid = es0.len() as usize;
    assert forall|j: int| 0 <= j < e1.len() && (#[trigger] e1[j]).node_type is Entry implies b2.contains_key(key_hash(key_of(e1[j])))
        && b2[key_hash(key_of(e1[j]))]@.contains(j as usize) by {
        if j < es0.len() {
            assert(es0[j].node_type is Entry);
            assert(key_of(e1[j]) == key_of(es0[j]));
            let hj = key_hash(key_of(es0[j]));
            let i = b[hj]@.index_of(j as usize);
            if hj == h {
                assert(nb@[i] == j as usize);
            }
        } else {
            assert(nb@[nb@.len() - 1] == rid);
        }
    }
    assert forall|g: u64, m: int| b2.contains_key(g) && 0 <= m < b2[g]@.len() implies (#[trigger] b2[g]@[m]) < e1.len()
        && e1[b2[g]@[m] as int].node_type is Entry && key_hash(key_of(e1[b2[g]@[m] as int])) == g by {
        if g == h && m == b2[g]@.len() - 1 {
        } else {
            assert(b.contains_key(g));
            assert(b2[g]@[m] == b[g]@[m]);
            let j = b[g]@[m] as int;
            assert(j < es0.len());
            assert(key_of(e1[j]) == key_of(es0[j]));
        }
    }
    assert forall|g: u64, m1: int, m2: int| #![trigger b2[g]@[m1], b2[g]@[m2]] b2.contains_key(g) && 0 <= m1 < m2 < b2[g]@.len() implies b2[g]@[m1] < b2[g]@[m2] by {
        if g == h && m2 == b2[g]@.len() - 1 {
            assert(b[g]@[m1] < es0.len());
        } else {
            assert(b2[g]@[m1] == b[g]@[m1] && b2[g]@[m2] == b[g]@[m2]);
        }
    }
}

fn push_attribute(index: &mut LdifIndex, cid: usize, label: String, value: String)
    requires
        cid < old(index)@.len(),
        old(index)@.len() < usize::MAX,
    ensures
        final(index)@ == with_child(
            old(index)@.push(attribute_entry(cid, (label@, value@))),
            cid as int,
            old(index)@.len() as usize,
        ),
        final(index).spec_root_id() == old(index).spec_root_id(),
{
    let ghost lv = label@;
    let ghost vv = value@;
    let id = index.add_entry(IndexEntry::new(0, Some(cid), NodeType::Attribute { key: label, value }));
    index.add_child(cid, id);
}

impl IndexBuilder {
    /// Adds the record with key `dn` and attribute pairs `attrs`, read at byte
    /// `offset`: it goes under the last record read whose key is its parent
    /// key, or under the root when there is none.
    pub fn add_record(&mut self, offset: u64, dn: &str, attrs: &Vec<(String, String)>)
        requires
            old(self).wf(),
            old(self).spec_entries().len() + attrs@.len() + 3 <= usize::MAX,
        ensures
            final(self).wf(),
            final(self).spec_records() == old(self).spec_records().push(RecordView {
                offset,
                dn: dn@,
                attrs: pairs_view(attrs@),
            }),
    {
        let ghost es0 = self.index@;
        let _n = self.index.len();
        let ghost r = RecordView { offset, dn: dn@, attrs: pairs_view(attrs@) };
        let parent = get_parent_dn(dn);
        let pid: usize = match &parent {
            Some(p) => {
                let pc = crate::text::chars_of(p.as_str());
                match self.find_record(&pc) {
                    Some(j) => j,
                    None => 0,
                }
            },
            None => 0,
        };
        proof {
            if let Some(p) = parent_key(dn@) {
                lemma_resolve_bound(es0, es0.len() as int, p);
            }
        }
        assert(pid == parent_of_record(es0, dn@));
        assert(pid < es0.len());
        let rdn = if pid == 0 {
            compute_rdn(dn, None)
        } else {
            match &parent {
                Some(p) => compute_rdn(dn, Some(p.as_str())),
                None => compute_rdn(dn, None),
            }
        };
        assert(rdn@ == label_of_record(es0, dn@));
        let rid = self.index.add_entry(IndexEntry::new(offset, Some(pid), NodeType::Entry { dn: dn.to_owned(), rdn }));
        self.index.add_child(pid, rid);
        let ghost e1 = self.index@;
        let dc = crate::text::chars_of(dn);
        let h = hash_key(&dc);
        let ghost b0 = self.buckets@;
        let mut bucket = match self.buckets.remove(&h) {
            Some(b) => b,
            None => Vec::new(),
        };
        bucket.push(rid);
        proof {
            assert(key_of(e1[rid as int]) == dn@);
            assert forall|j: int| 0 <= j < es0.len() implies (#[trigger] e1[j]).node_type == es0[j].node_type by {
                if j == pid {
                } else {
                    assert(e1[j] == es0[j]);
                }
            }
            lemma_register(es0, e1, b0, bucket, h);
        }
        self.buckets.insert(h, bucket);
        assert(buckets_ok(self.index@, self.buckets@));
        assert(self.records@ == old(self).records@);
        let cid = self.index.add_entry(IndexEntry::new(0, Some(rid), NodeType::VirtualAttributes));
        self.index.add_child(rid, cid);
        let ghost e2 = self.index@;
        proof {
            lemma_child_grows(e1, EntryView { offset: 0, parent_id: Some(rid), children: Seq::empty(), node_type: NodeTypeView::VirtualAttributes }, rid as int);
            lemma_buckets_grow(e1, e2, self.buckets@);
        }
        let mut full: Vec<(String, String)> = Vec::new();
        full.push(("dn".to_owned(), dn.to_owned()));
        let mut i: usize = 0;
        while i < attrs.len()
            invariant
                i <= attrs@.len(),
                pairs_view(full@) == seq![("dn"@, dn@)] + r.attrs.subrange(0, i as int),
                r.attrs == pairs_view(attrs@),
            decreases attrs@.len() - i,
        {
            let k = attrs[i].0.clone();
            let v = attrs[i].1.clone();
            let ghost before = full@;
            full.push((k, v));
            assert(pairs_view(full@) =~= pairs_view(before).push(r.attrs[i as int]));
            assert(pairs_view(full@) =~= seq![("dn"@, dn@)] + r.attrs.subrange(0, i + 1));
            i = i + 1;
        }
        assert(r.attrs.subrange(0, attrs@.len() as int) =~= r.attrs);
        assert(self.records@ == old(self).records@);
        let groups = group_attributes(&full);
        let ghost gv = groups_view(groups@);
        assert(gv == groups_of(all_attributes(r)));
        proof {
            crate::attrs::lemma_groups_total(all_attributes(r));
            crate::attrs::lemma_items_len(gv);
            crate::attrs::lemma_groups_sorted(all_attributes(r));
        }
        let mut gi: usize = 0;
        assert(items_of(gv.subrange(0, 0)) =~= Seq::empty());
        while gi < groups.len()
            invariant
                gi <= groups@.len(),
                gv == groups_view(groups@),
                gv == groups_of(all_attributes(r)),
                crate::attrs::groups_sorted(gv),
                items_of(gv).len() == all_attributes(r).len(),
                all_attributes(r).len() == attrs@.len() + 1,
                e2.len() + attrs@.len() + 1 <= usize::MAX,
                cid == e2.len() - 1,
                self.index@ == attribute_entries(e2, cid, items_of(gv.subrange(0, gi as int))),
                self.index@.len() == e2.len() + items_of(gv.subrange(0, gi as int)).len(),
                buckets_ok(self.index@, self.buckets@),
                self.index.spec_root_id() == 0,
                self.records@ == old(self).records@,
            decreases groups@.len() - gi,
        {
            let ghost before_items = items_of(gv.subrange(0, gi as int));
            let ghost g = gv[gi as int];
            proof {
                assert(gv.subrange(0, gi + 1).drop_last() =~= gv.subrange(0, gi as int));
                assert(items_of(gv.subrange(0, gi + 1)) == before_items + group_items(g));
                lemma_items_prefix(gv, gi as int + 1);
            }
            let grp = &groups[gi];
            if grp.values.len() == 1 {
                let ghost prev = self.index@;
                let label = crate::text::string_of(&grp.key);
                let value = grp.values[0].clone();
                push_attribute(&mut self.index, cid, label, value);
                proof {
                    lemma_child_grows(prev, attribute_entry(cid, (g.0, g.1[0])), cid as int);
                    lemma_buckets_grow(prev, self.index@, self.buckets@);
                    assert(group_items(g) =~= seq![(g.0, g.1[0])]);
                    lemma_entries_push(e2, cid, before_items, (g.0, g.1[0]));
                    assert(before_items + group_items(g) =~= before_items.push((g.0, g.1[0])));
                }
            } else {
                let mut vi: usize = 0;
                assert(before_items + group_items(g).subrange(0, 0) =~= before_items);
                while vi < grp.values.len()
                    invariant
                        vi <= grp.values@.len(),
                        g == grp@,
                        g.1.len() != 1,
                        group_items(g).len() == g.1.len(),
                        before_items + group_items(g) == items_of(gv.subrange(0, gi + 1)),
                        items_of(gv.subrange(0, gi + 1)).len() <= items_of(gv).len(),
                        items_of(gv).len() == attrs@.len() + 1,
                        e2.len() + attrs@.len() + 1 <= usize::MAX,
                        cid == e2.len() - 1,
                        self.index@ == attribute_entries(e2, cid, before_items + group_items(g).subrange(0, vi as int)),
                        self.index@.len() == e2.len() + before_items.len() + vi,
                        buckets_ok(self.index@, self.buckets@),
                        self.index.spec_root_id() == 0,
                        self.records@ == old(self).records@,
                    decreases grp.values@.len() - vi,
                {
                    let ghost prev = self.index@;
                    let label = indexed_label_of(&grp.key, vi);
                    let value = grp.values[vi].clone();
                    let ghost item = (label@, value@);
                    assert(item == group_items(g)[vi as int]);
                    push_attribute(&mut self.index, cid, label, value);
                    proof {
                        lemma_child_grows(prev, attribute_entry(cid, item), cid as int);
                        lemma_buckets_grow(prev, self.index@, self.buckets@);
                        lemma_entries_push(e2, cid, before_items + group_items(g).subrange(0, vi as int), item);
                        assert((before_items + group_items(g).subrange(0, vi as int)).push(item)
                            =~= before_items + group_items(g).subrange(0, vi + 1));
                    }
                    vi = vi + 1;
                }
                assert(group_items(g).subrange(0, g.1.len() as int) =~= group_items(g));
            }
            gi = gi + 1;
        }
        assert(gv.subrange(0, gv.len() as int) =~= gv);
        assert(self.index@.len() >= 1);
        assert(buckets_ok(self.index@, self.buckets@));
        proof {
            let rec = EntryView {
                offset: r.offset,
                parent_id: Some(pid),
                children: Seq::empty(),
                node_type: NodeTypeView::Entry { dn: r.dn, rdn: label_of_record(es0, r.dn) },
            };
            assert(e1 == with_child(es0.push(rec), pid as int, rid));
            let cont = EntryView {
                offset: 0,
                parent_id: Some(rid),
                children: Seq::empty(),
                node_type: NodeTypeView::VirtualAttributes,
            };
            assert(e2 == with_child(e1.push(cont), rid as int, cid));
            assert(self.index@ == attribute_entries(e2, cid, record_items(r)));
            assert(self.index@ == append_record(es0, r));
        }
        assert(self.records@ == old(self).records@);
        let ghost rs0 = self.records@;
        self.records = Ghost(rs0.push(r));
        proof {
            assert(rs0.push(r).drop_last() =~= rs0);
            assert(index_of(rs0.push(r)) == append_record(index_of(rs0), r));
        }
    }

    /// The entries are the index of the records added, root first.
    pub proof fn lemma_wf(&self)
        requires
            self.wf(),
        ensures
            self.spec_entries() == index_of(self.spec_records()),
            self.spec_entries().len() >= 1,
    {
    }

    /// The index of all records added.
    pub fn finish(self) -> (r: LdifIndex)
        requires
            self.wf(),
        ensures
            r@ == index_of(self.spec_records()),
            r@.len() >= 1,
            r.spec_root_id() == 0,
    {
        self.index
    }
}

proof fn lemma_entries_push(es: Seq<EntryView>, cid: usize, xs: Seq<(Seq<char>, Seq<char>)>, y: (Seq<char>, Seq<char>))
    ensures
        attribute_entries(es, cid, xs.push(y)) == with_child(
            attribute_entries(es, cid, xs).push(attribute_entry(cid, y)),
            cid as int,
            attribute_entries(es, cid, xs).len() as usize,
        ),
{
    assert(xs.push(y).drop_last() =~= xs);
}

proof fn lemma_items_prefix(g: Seq<crate::attrs::GroupView>, n: int)
    requires
        0 <= n <= g.len(),
    ensures
        items_of(g.subrange(0, n)).len() <= items_of(g).len(),
    decreases g.len() - n,
{
    if n < g.len() {
        lemma_items_prefix(g, n + 1);
        assert(g.subrange(0, n + 1).drop_last() =~= g.subrange(0, n));
    } else {
        assert(g.subrange(0, n) =~= g);
    }
}


impl IndexBuilder {
    /// The number of entries built so far.
    pub fn entry_count(&self) -> (r: usize)
        ensures
            r == self.spec_entries().len(),
    {
        self.index.len()
    }
}

} // verus!
