//! What holds of every index that the builder produces.
use vstd::prelude::*;
use crate::attrs::{add_value, group_items, groups_of, groups_sorted, items_of, lex_lt, values_of, GroupView};
use crate::builder::{
    all_attributes, append_record, attribute_entries, index_of, is_record_with, key_of, label_of_record,
    parent_of_record, record_items, resolve, resolve_upto, with_child, RecordView,
};
use crate::dn::{parent_key, relative_key};
use crate::index::{EntryView, NodeTypeView};
use crate::text::trim;

verus! {

/// The number of entries that the records add: for each, its own entry, its
/// container, and one entry per attribute value (its key counted as `dn`).
pub open spec fn entries_for(rs: Seq<RecordView>) -> nat
    decreases rs.len(),
{
    if rs.len() == 0 {
        0
    } else {
        entries_for(rs.drop_last()) + 2 + all_attributes(rs.last()).len()
    }
}

/// The values of the first group with key `q`; none when there is none.
pub open spec fn lookup(g: Seq<GroupView>, q: Seq<char>) -> Seq<Seq<char>>
    decreases g.len(),
{
    if g.len() == 0 {
        Seq::empty()
    } else if g[0].0 == q {
        g[0].1
    } else {
        lookup(g.drop_first(), q)
    }
}

proof fn lemma_attribute_entries_keep(es: Seq<EntryView>, cid: usize, items: Seq<(Seq<char>, Seq<char>)>)
    requires
        cid < es.len(),
    ensures
        attribute_entries(es, cid, items).len() == es.len() + items.len(),
        forall|k: int| 0 <= k < es.len() && k != cid ==> #[trigger] attribute_entries(es, cid, items)[k] == es[k],
        attribute_entries(es, cid, items)[cid as int].node_type == es[cid as int].node_type,
        attribute_entries(es, cid, items)[cid as int].parent_id == es[cid as int].parent_id,
    decreases items.len(),
{
    if items.len() > 0 {
        lemma_attribute_entries_keep(es, cid, items.drop_last());
        let e = attribute_entries(es, cid, items.drop_last());
        assert forall|k: int| 0 <= k < es.len() && k != cid implies #[trigger] attribute_entries(es, cid, items)[k] == es[k] by {
            assert(e[k] == es[k]);
        }
    }
}

proof fn lemma_parent_in_range(es: Seq<EntryView>, dn: Seq<char>)
    requires
        1 <= es.len() <= usize::MAX,
    ensures
        parent_of_record(es, dn) < es.len(),
        parent_of_record(es, dn) != 0 ==> parent_key(dn) is Some && key_of(es[parent_of_record(es, dn) as int])
            == parent_key(dn)->0,
{
    if let Some(p) = parent_key(dn) {
        crate::builder::lemma_resolve_bound(es, es.len() as int, p);
    }
}

/// Adding a record places it: the new record entry gets the resolved
/// parent and is appended to that parent's children; every entry read
/// before is unchanged but for that one child list.
pub proof fn law_record_placement(es: Seq<EntryView>, r: RecordView)
    requires
        es.len() >= 1,
        es.len() + 2 + all_attributes(r).len() <= usize::MAX,
    ensures
        ({
            let out = append_record(es, r);
            let pid = parent_of_record(es, r.dn);
            let rid = es.len() as int;
            &&& out.len() == es.len() + 2 + all_attributes(r).len()
            &&& pid < es.len()
            &&& out[rid].parent_id == Some(pid)
            &&& out[rid].node_type == (NodeTypeView::Entry { dn: r.dn, rdn: label_of_record(es, r.dn) })
            &&& out[pid as int].children == es[pid as int].children.push(rid as usize)
            &&& forall|k: int| 0 <= k < es.len() && k != pid ==> #[trigger] out[k] == es[k]
            &&& out[pid as int].node_type == es[pid as int].node_type
            &&& out[pid as int].parent_id == es[pid as int].parent_id
        }),
{
    lemma_parent_in_range(es, r.dn);
    let pid = parent_of_record(es, r.dn);
    let rid = es.len() as usize;
    let rec = EntryView {
        offset: r.offset,
        parent_id: Some(pid),
        children: Seq::empty(),
        node_type: NodeTypeView::Entry { dn: r.dn, rdn: label_of_record(es, r.dn) },
    };
    let e1 = with_child(es.push(rec), pid as int, rid);
    let cid = (rid + 1) as usize;
    let cont = EntryView {
        offset: 0,
        parent_id: Some(rid),
        children: Seq::empty(),
        node_type: NodeTypeView::VirtualAttributes,
    };
    let e2 = with_child(e1.push(cont), rid as int, cid);
    crate::attrs::lemma_groups_total(all_attributes(r));
    crate::attrs::lemma_items_len(groups_of(all_attributes(r)));
    lemma_attribute_entries_keep(e2, cid, record_items(r));
    let out = append_record(es, r);
    assert(out == attribute_entries(e2, cid, record_items(r)));
    assert(out[rid as int] == e2[rid as int]);
    assert(out[pid as int] == e2[pid as int]);
    assert forall|k: int| 0 <= k < es.len() && k != pid implies #[trigger] out[k] == es[k] by {
        assert(out[k] == e2[k]);
        assert(e2[k] == e1[k]);
    }
}

/// The index of `n` records holds one root entry, and for each record its
/// own entry, one attribute container and one attribute entry per value.
pub proof fn law_index_size(rs: Seq<RecordView>)
    requires
        1 + entries_for(rs) <= usize::MAX,
    ensures
        index_of(rs).len() == 1 + entries_for(rs),
    decreases rs.len(),
{
    if rs.len() > 0 {
        law_index_size(rs.drop_last());
        law_record_placement(index_of(rs.drop_last()), rs.last());
    }
}

/// The label of a record: under the root it is the record's key itself;
/// under a resolved parent whose key follows the record's own part and a
/// comma, it is that part, trimmed.
pub proof fn law_relative_key(es: Seq<EntryView>, r: RecordView)
    requires
        es.len() >= 1,
        es.len() + 2 + all_attributes(r).len() <= usize::MAX,
        r.dn == trim(r.dn),
    ensures
        ({
            let pid = parent_of_record(es, r.dn);
            let label = label_of_record(es, r.dn);
            &&& append_record(es, r)[es.len() as int].node_type == (NodeTypeView::Entry { dn: r.dn, rdn: label })
            &&& pid == 0 ==> label == r.dn
            &&& forall|x: Seq<char>| pid != 0 && r.dn == x + ","@ + key_of(es[pid as int]) ==> label == trim(x)
        }),
{
    law_record_placement(es, r);
    lemma_parent_in_range(es, r.dn);
    let pid = parent_of_record(es, r.dn);
    assert forall|x: Seq<char>| pid != 0 && r.dn == x + ","@ + key_of(es[pid as int]) implies label_of_record(es, r.dn) == trim(x) by {
        let p = parent_key(r.dn)->0;
        reveal_strlit(",");
        let d = r.dn;
        let cut = d.len() - p.len();
        assert(d.subrange(cut, d.len() as int) =~= p);
        assert(d[cut - 1] == ',');
        assert(d.subrange(0, cut - 1) =~= x);
    }
}

proof fn lemma_lookup_absent(g: Seq<GroupView>, k: Seq<char>)
    requires
        groups_sorted(g),
        g.len() > 0,
        lex_lt(k, g[0].0),
    ensures
        lookup(g, k) == Seq::<Seq<char>>::empty(),
    decreases g.len(),
{
    crate::attrs::lemma_lex_total(k, g[0].0);
    crate::attrs::lemma_lex_total(k, k);
    assert(g[0].0 != k);
    let rest = g.drop_first();
    assert(lookup(g, k) == lookup(rest, k));
    if rest.len() > 0 {
        assert(rest[0] == g[1]);
        crate::attrs::lemma_lex_trans(k, g[0].0, g[1].0);
        assert(groups_sorted(rest)) by {
            assert forall|i: int| 0 <= i < rest.len() - 1 implies lex_lt(#[trigger] rest[i].0, rest[i + 1].0) by {
                assert(rest[i] == g[i + 1] && rest[i + 1] == g[i + 2]);
            }
            assert forall|i: int| 0 <= i < rest.len() implies (#[trigger] rest[i]).1.len() > 0 by {
                assert(rest[i] == g[i + 1]);
            }
        }
        lemma_lookup_absent(rest, k);
    }
}

proof fn lemma_lookup_add(g: Seq<GroupView>, k: Seq<char>, v: Seq<char>, q: Seq<char>)
    requires
        groups_sorted(g),
    ensures
        lookup(add_value(g, k, v), q) == if q == k {
            lookup(g, q).push(v)
        } else {
            lookup(g, q)
        },
    decreases g.len(),
{
    let r = add_value(g, k, v);
    if g.len() == 0 {
        assert(r.drop_first() =~= Seq::<GroupView>::empty());
        assert(Seq::<Seq<char>>::empty().push(v) =~= seq![v]);
        if q != k {
            assert(lookup(r, q) == lookup(r.drop_first(), q));
        }
    } else if g[0].0 == k {
        assert(r.drop_first() =~= g.drop_first());
        if q != k {
            assert(lookup(r, q) == lookup(r.drop_first(), q));
            assert(lookup(g, q) == lookup(g.drop_first(), q));
        }
    } else if lex_lt(k, g[0].0) {
        assert(r.drop_first() =~= g);
        if q == k {
            lemma_lookup_absent(g, k);
            assert(Seq::<Seq<char>>::empty().push(v) =~= seq![v]);
        } else {
            assert(lookup(r, q) == lookup(r.drop_first(), q));
        }
    } else {
        let rest = g.drop_first();
        assert(groups_sorted(rest)) by {
            assert forall|i: int| 0 <= i < rest.len() - 1 implies lex_lt(#[trigger] rest[i].0, rest[i + 1].0) by {
                assert(rest[i] == g[i + 1] && rest[i + 1] == g[i + 2]);
            }
            assert forall|i: int| 0 <= i < rest.len() implies (#[trigger] rest[i]).1.len() > 0 by {
                assert(rest[i] == g[i + 1]);
            }
        }
        lemma_lookup_add(rest, k, v, q);
        assert(r.drop_first() =~= add_value(rest, k, v));
        assert(r[0] == g[0]);
        if g[0].0 != q {
            assert(lookup(r, q) == lookup(r.drop_first(), q));
            assert(lookup(g, q) == lookup(rest, q));
        }
    }
}

proof fn lemma_lookup_groups(a: Seq<(Seq<char>, Seq<char>)>, q: Seq<char>)
    ensures
        lookup(groups_of(a), q) == values_of(a, q),
    decreases a.len(),
{
    if a.len() > 0 {
        lemma_lookup_groups(a.drop_last(), q);
        crate::attrs::lemma_groups_sorted(a.drop_last());
        lemma_lookup_add(groups_of(a.drop_last()), a.last().0, a.last().1, q);
    }
}

/// The attribute nodes of a record come in groups whose keys are strictly
/// ascending; each group holds the values of its key in source order, and
/// the nodes of a key with several values carry the labels `key [0]`,
/// `key [1]`, and so on.
pub proof fn law_attribute_order(r: RecordView)
    ensures
        ({
            let g = groups_of(all_attributes(r));
            &&& groups_sorted(g)
            &&& forall|q: Seq<char>| #[trigger] lookup(g, q) == values_of(all_attributes(r), q)
            &&& record_items(r) == items_of(g)
            &&& forall|i: int, j: int| 0 <= i < g.len() && g[i].1.len() > 1 && 0 <= j < g[i].1.len()
                ==> #[trigger] group_items(g[i])[j] == (crate::attrs::indexed_label(g[i].0, j as nat), g[i].1[j])
        }),
{
    crate::attrs::lemma_groups_sorted(all_attributes(r));
    assert forall|q: Seq<char>| #[trigger] lookup(groups_of(all_attributes(r)), q) == values_of(all_attributes(r), q) by {
        lemma_lookup_groups(all_attributes(r), q);
    }
}


/// The parent and child links of an index agree: entry 0 is the root and
/// has no parent; every other entry has a parent with a smaller id that
/// lists it as a child; every child listed exists and names the entry as
/// its parent; and each child list is strictly increasing, so no child is
/// listed twice.
pub open spec fn well_linked(es: Seq<EntryView>) -> bool {
    &&& es.len() >= 1
    &&& es[0].parent_id is None
    &&& es[0].node_type is Root
    &&& forall|i: int| 0 < i < es.len() ==> (#[trigger] es[i]).parent_id is Some && es[i].parent_id->0 < i
        && es[es[i].parent_id->0 as int].children.contains(i as usize)
    &&& forall|i: int, k: int| 0 <= i < es.len() && 0 <= k < es[i].children.len() ==> (#[trigger] es[i].children[k])
        < es.len() && es[es[i].children[k] as int].parent_id == Some(i as usize)
    &&& forall|i: int, k1: int, k2: int| #![trigger es[i].children[k1], es[i].children[k2]] 0 <= i < es.len() && 0 <= k1
        < k2 < es[i].children.len() ==> es[i].children[k1] < es[i].children[k2]
}

proof fn lemma_link_step(es: Seq<EntryView>, e: EntryView, p: int)
    requires
        well_linked(es),
        0 <= p < es.len(),
        es.len() < usize::MAX,
        e.parent_id == Some(p as usize),
        e.children.len() == 0,
    ensures
        well_linked(with_child(es.push(e), p, es.len() as usize)),
{
    let n = es.len() as usize;
    let es2 = with_child(es.push(e), p, n);
    assert(es2.len() == es.len() + 1);
    assert forall|i: int| 0 <= i < es.len() implies #[trigger] es2[i].parent_id == es[i].parent_id
        && es2[i].node_type == es[i].node_type && es2[i].children == (if i == p { es[i].children.push(n) } else { es[i].children }) by {}
    assert(es2[n as int].parent_id == Some(p as usize));
    assert(es2[n as int].children.len() == 0);
    assert forall|i: int| 0 < i < es2.len() implies (#[trigger] es2[i]).parent_id is Some && es2[i].parent_id->0 < i
        && es2[es2[i].parent_id->0 as int].children.contains(i as usize) by {
        if i < es.len() {
            assert(es[i].parent_id is Some);
            let q = es[i].parent_id->0 as int;
            assert(es[q].children.contains(i as usize));
            let k = es[q].children.index_of(i as usize);
            assert(es2[q].children[k] == i as usize);
        } else {
            assert(es2[p].children[es2[p].children.len() - 1] == n);
        }
    }
    assert forall|i: int, k: int| 0 <= i < es2.len() && 0 <= k < es2[i].children.len() implies (#[trigger] es2[i].children[k])
        < es2.len() && es2[es2[i].children[k] as int].parent_id == Some(i as usize) by {
        if i < es.len() && k < es[i].children.len() {
            assert(es2[i].children[k] == es[i].children[k]);
            assert(es[i].children[k] < es.len());
        }
    }
    assert forall|i: int, k1: int, k2: int| #![trigger es2[i].children[k1], es2[i].children[k2]] 0 <= i < es2.len() && 0
        <= k1 < k2 < es2[i].children.len() implies es2[i].children[k1] < es2[i].children[k2] by {
        if i < es.len() {
            assert(es2[i].children[k1] == es[i].children[k1]);
            assert(es[i].children[k1] < es.len());
            if k2 < es[i].children.len() {
                assert(es2[i].children[k2] == es[i].children[k2]);
            }
        }
    }
}

proof fn lemma_link_attributes(es: Seq<EntryView>, cid: usize, items: Seq<(Seq<char>, Seq<char>)>)
    requires
        well_linked(es),
        cid < es.len(),
        es.len() + items.len() <= usize::MAX,
    ensures
        well_linked(attribute_entries(es, cid, items)),
    decreases items.len(),
{
    if items.len() > 0 {
        lemma_link_attributes(es, cid, items.drop_last());
        lemma_attribute_entries_keep(es, cid, items.drop_last());
        let e = attribute_entries(es, cid, items.drop_last());
        lemma_link_step(e, crate::builder::attribute_entry(cid, items.last()), cid as int);
    }
}

/// Adding a record keeps the links of the index in agreement.
pub proof fn law_append_linked(es: Seq<EntryView>, r: RecordView)
    requires
        well_linked(es),
        es.len() + 2 + all_attributes(r).len() <= usize::MAX,
    ensures
        well_linked(append_record(es, r)),
{
    lemma_parent_in_range(es, r.dn);
    let pid = parent_of_record(es, r.dn);
    let rid = es.len() as usize;
    let rec = EntryView {
        offset: r.offset,
        parent_id: Some(pid),
        children: Seq::empty(),
        node_type: NodeTypeView::Entry { dn: r.dn, rdn: label_of_record(es, r.dn) },
    };
    lemma_link_step(es, rec, pid as int);
    let e1 = with_child(es.push(rec), pid as int, rid);
    let cid = (rid + 1) as usize;
    let cont = EntryView {
        offset: 0,
        parent_id: Some(rid),
        children: Seq::empty(),
        node_type: NodeTypeView::VirtualAttributes,
    };
    lemma_link_step(e1, cont, rid as int);
    let e2 = with_child(e1.push(cont), rid as int, cid);
    crate::attrs::lemma_groups_total(all_attributes(r));
    crate::attrs::lemma_items_len(groups_of(all_attributes(r)));
    lemma_link_attributes(e2, cid, record_items(r));
}

/// Every index built from records has agreeing parent and child links
/// under root 0.
pub proof fn law_index_linked(rs: Seq<RecordView>)
    requires
        1 + entries_for(rs) <= usize::MAX,
    ensures
        well_linked(index_of(rs)),
    decreases rs.len(),
{
    if rs.len() == 0 {
        assert(well_linked(seq![crate::builder::root_entry()]));
    } else {
        law_index_linked(rs.drop_last());
        law_index_size(rs.drop_last());
        law_append_linked(index_of(rs.drop_last()), rs.last());
    }
}

} // verus!
