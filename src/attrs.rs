//! The attributes of a record: grouping by key in ascending key order, and
//! the labels of the attribute nodes.
use vstd::prelude::*;
use crate::text::{append_decimal, append_str, decimal};

verus! {

/// Code-point lexicographic order, the order of `str` comparison.
pub open spec fn lex_lt(a: Seq<char>, b: Seq<char>) -> bool
    decreases a.len(),
{
    if a.len() == 0 {
        b.len() > 0
    } else if b.len() == 0 {
        false
    } else if a[0] != b[0] {
        a[0] < b[0]
    } else {
        lex_lt(a.drop_first(), b.drop_first())
    }
}

/// Two different keys are ordered one way or the other, never both.
pub proof fn lemma_lex_total(a: Seq<char>, b: Seq<char>)
    ensures
        !(lex_lt(a, b) && lex_lt(b, a)),
        a != b ==> lex_lt(a, b) || lex_lt(b, a),
        !lex_lt(a, a),
    decreases a.len(),
{
    if a.len() > 0 && b.len() > 0 && a[0] == b[0] {
        lemma_lex_total(a.drop_first(), b.drop_first());
        if a != b {
            assert(a =~= seq![a[0]] + a.drop_first());
            assert(b =~= seq![b[0]] + b.drop_first());
        }
    }
    if a.len() > 0 {
        lemma_lex_total(a.drop_first(), a.drop_first());
    }
    if a.len() == 0 && b.len() == 0 {
        assert(a =~= b);
    }
}

/// The order is transitive.
pub proof fn lemma_lex_trans(a: Seq<char>, b: Seq<char>, c: Seq<char>)
    requires
        lex_lt(a, b),
        lex_lt(b, c),
    ensures
        lex_lt(a, c),
    decreases a.len(),
{
    if a.len() > 0 && b.len() > 0 && c.len() > 0 && a[0] == b[0] && b[0] == c[0] {
        lemma_lex_trans(a.drop_first(), b.drop_first(), c.drop_first());
    }
}

/// Whether `a` is strictly less than `b` in code-point order.
pub fn lex_less(a: &Vec<char>, b: &Vec<char>) -> (r: bool)
    ensures
        r == lex_lt(a@, b@),
{
    let mut i: usize = 0;
    assert(a@.subrange(0, a@.len() as int) =~= a@);
    assert(b@.subrange(0, b@.len() as int) =~= b@);
    while i < a.len() && i < b.len() && a[i] == b[i]
        invariant
            i <= a@.len(),
            i <= b@.len(),
            lex_lt(a@, b@) == lex_lt(a@.subrange(i as int, a@.len() as int), b@.subrange(i as int, b@.len() as int)),
        decreases a@.len() - i,
    {
        proof {
            let x = a@.subrange(i as int, a@.len() as int);
            let y = b@.subrange(i as int, b@.len() as int);
            assert(x.drop_first() =~= a@.subrange(i + 1, a@.len() as int));
            assert(y.drop_first() =~= b@.subrange(i + 1, b@.len() as int));
        }
        i = i + 1;
    }
    let ghost x = a@.subrange(i as int, a@.len() as int);
    let ghost y = b@.subrange(i as int, b@.len() as int);
    if i == a.len() {
        i < b.len()
    } else if i == b.len() {
        false
    } else {
        assert(x[0] == a@[i as int] && y[0] == b@[i as int]);
        a[i] < b[i]
    }
}

/// The views of a list of string pairs.
pub open spec fn pairs_view(a: Seq<(String, String)>) -> Seq<(Seq<char>, Seq<char>)> {
    a.map_values(|p: (String, String)| (p.0@, p.1@))
}

/// A key with its values, in the order they came.
pub type GroupView = (Seq<char>, Seq<Seq<char>>);

/// `g` with value `v` added under key `k`: appended to the group of `k`, or a
/// new group placed before the first greater key.
pub open spec fn add_value(g: Seq<GroupView>, k: Seq<char>, v: Seq<char>) -> Seq<GroupView>
    decreases g.len(),
{
    if g.len() == 0 {
        seq![(k, seq![v])]
    } else if g[0].0 == k {
        g.update(0, (k, g[0].1.push(v)))
    } else if lex_lt(k, g[0].0) {
        seq![(k, seq![v])] + g
    } else {
        seq![g[0]] + add_value(g.drop_first(), k, v)
    }
}

/// The groups of a list of key and value pairs.
pub open spec fn groups_of(a: Seq<(Seq<char>, Seq<char>)>) -> Seq<GroupView>
    decreases a.len(),
{
    if a.len() == 0 {
        Seq::empty()
    } else {
        add_value(groups_of(a.drop_last()), a.last().0, a.last().1)
    }
}

/// The values of key `k` in `a`, in source order.
pub open spec fn values_of(a: Seq<(Seq<char>, Seq<char>)>, k: Seq<char>) -> Seq<Seq<char>>
    decreases a.len(),
{
    if a.len() == 0 {
        Seq::empty()
    } else if a.last().0 == k {
        values_of(a.drop_last(), k).push(a.last().1)
    } else {
        values_of(a.drop_last(), k)
    }
}

/// Keys strictly ascending, each group holding at least one value.
pub open spec fn groups_sorted(g: Seq<GroupView>) -> bool {
    &&& forall|i: int| 0 <= i < g.len() - 1 ==> lex_lt(#[trigger] g[i].0, g[i + 1].0)
    &&& forall|i: int| 0 <= i < g.len() ==> (#[trigger] g[i]).1.len() > 0
}

/// The number of values in all groups.
pub open spec fn total_values(g: Seq<GroupView>) -> nat
    decreases g.len(),
{
    if g.len() == 0 {
        0
    } else {
        total_values(g.drop_last()) + g.last().1.len()
    }
}

/// The label of the `i`-th of several values of key `k`: `k [i]`.
pub open spec fn indexed_label(k: Seq<char>, i: nat) -> Seq<char> {
    k + " ["@ + decimal(i) + "]"@
}

/// The attribute nodes of one group, as label and value: the key alone for
/// a single value, an indexed label for each of several.
pub open spec fn group_items(grp: GroupView) -> Seq<(Seq<char>, Seq<char>)> {
    if grp.1.len() == 1 {
        seq![(grp.0, grp.1[0])]
    } else {
        Seq::new(grp.1.len(), |i: int| (indexed_label(grp.0, i as nat), grp.1[i]))
    }
}

/// The attribute nodes of all groups, in group order.
pub open spec fn items_of(g: Seq<GroupView>) -> Seq<(Seq<char>, Seq<char>)>
    decreases g.len(),
{
    if g.len() == 0 {
        Seq::empty()
    } else {
        items_of(g.drop_last()) + group_items(g.last())
    }
}

proof fn lemma_total_front(x: GroupView, g: Seq<GroupView>)
    ensures
        total_values(seq![x] + g) == x.1.len() + total_values(g),
    decreases g.len(),
{
    if g.len() > 0 {
        assert((seq![x] + g).drop_last() =~= seq![x] + g.drop_last());
        assert((seq![x] + g).last() == g.last());
        lemma_total_front(x, g.drop_last());
        assert(total_values(seq![x] + g) == total_values(seq![x] + g.drop_last()) + g.last().1.len());
        assert(total_values(g) == total_values(g.drop_last()) + g.last().1.len());
    } else {
        assert((seq![x] + g).drop_last() =~= Seq::<GroupView>::empty());
        assert(total_values(seq![x] + g) == total_values(Seq::<GroupView>::empty()) + x.1.len());
    }
}

/// Adding a value adds one to the count of values.
pub proof fn lemma_add_value_total(g: Seq<GroupView>, k: Seq<char>, v: Seq<char>)
    ensures
        total_values(add_value(g, k, v)) == total_values(g) + 1,
    decreases g.len(),
{
    if g.len() == 0 {
        lemma_total_front((k, seq![v]), g);
    } else if g[0].0 == k {
        let rest = g.drop_first();
        assert(g =~= seq![g[0]] + rest);
        assert(g.update(0, (k, g[0].1.push(v))) =~= seq![(k, g[0].1.push(v))] + rest);
        lemma_total_front(g[0], rest);
        lemma_total_front((k, g[0].1.push(v)), rest);
    } else if lex_lt(k, g[0].0) {
        lemma_total_front((k, seq![v]), g);
    } else {
        let rest = g.drop_first();
        assert(g =~= seq![g[0]] + rest);
        lemma_add_value_total(rest, k, v);
        lemma_total_front(g[0], rest);
        lemma_total_front(g[0], add_value(rest, k, v));
    }
}

/// The groups of `a` hold as many values as `a` has pairs.
pub proof fn lemma_groups_total(a: Seq<(Seq<char>, Seq<char>)>)
    ensures
        total_values(groups_of(a)) == a.len(),
    decreases a.len(),
{
    if a.len() > 0 {
        lemma_groups_total(a.drop_last());
        lemma_add_value_total(groups_of(a.drop_last()), a.last().0, a.last().1);
    }
}

/// The attribute nodes of groups number as many as their values.
pub proof fn lemma_items_len(g: Seq<GroupView>)
    ensures
        items_of(g).len() == total_values(g),
    decreases g.len(),
{
    if g.len() > 0 {
        lemma_items_len(g.drop_last());
    }
}

/// Adding a value keeps the groups sorted.
pub proof fn lemma_add_value_sorted(g: Seq<GroupView>, k: Seq<char>, v: Seq<char>)
    requires
        groups_sorted(g),
    ensures
        groups_sorted(add_value(g, k, v)),
        add_value(g, k, v).len() > 0,
        add_value(g, k, v)[0].0 == k || (g.len() > 0 && add_value(g, k, v)[0].0 == g[0].0),
    decreases g.len(),
{
    let r = add_value(g, k, v);
    if g.len() == 0 {
    } else if g[0].0 == k {
        assert forall|i: int| 0 <= i < r.len() - 1 implies lex_lt(#[trigger] r[i].0, r[i + 1].0) by {
            assert(g[i].0 == r[i].0 && g[i + 1].0 == r[i + 1].0);
        }
    } else if lex_lt(k, g[0].0) {
        assert forall|i: int| 0 <= i < r.len() - 1 implies lex_lt(#[trigger] r[i].0, r[i + 1].0) by {
            if i > 0 {
                assert(r[i] == g[i - 1] && r[i + 1] == g[i]);
            }
        }
        assert forall|i: int| 0 <= i < r.len() implies (#[trigger] r[i]).1.len() > 0 by {
            if i > 0 {
                assert(r[i] == g[i - 1]);
            }
        }
    } else {
        let rest = g.drop_first();
        assert(groups_sorted(rest)) by {
            assert forall|i: int| 0 <= i < rest.len() - 1 implies lex_lt(#[trigger] rest[i].0, rest[i + 1].0) by {
                assert(rest[i] == g[i + 1] && rest[i + 1] == g[i + 2]);
            }
            assert forall|i: int| 0 <= i < rest.len() implies (#[trigger] rest[i]).1.len() > 0 by {
                assert(rest[i] == g[i + 1]);
            }
        }
        lemma_add_value_sorted(rest, k, v);
        lemma_lex_total(k, g[0].0);
        let t = add_value(rest, k, v);
        if rest.len() > 0 && t[0].0 == rest[0].0 {
            assert(rest[0] == g[1]);
        }
        assert(lex_lt(g[0].0, t[0].0));
        assert forall|i: int| 0 <= i < r.len() - 1 implies lex_lt(#[trigger] r[i].0, r[i + 1].0) by {
            if i > 0 {
                assert(r[i] == t[i - 1] && r[i + 1] == t[i]);
            }
        }
        assert forall|i: int| 0 <= i < r.len() implies (#[trigger] r[i]).1.len() > 0 by {
            if i > 0 {
                assert(r[i] == t[i - 1]);
            }
        }
    }
}

/// The groups of any list of pairs have strictly ascending keys.
pub proof fn lemma_groups_sorted(a: Seq<(Seq<char>, Seq<char>)>)
    ensures
        groups_sorted(groups_of(a)),
    decreases a.len(),
{
    if a.len() > 0 {
        lemma_groups_sorted(a.drop_last());
        lemma_add_value_sorted(groups_of(a.drop_last()), a.last().0, a.last().1);
    }
}

/// A key and its values.
pub struct AttrGroup {
    pub key: Vec<char>,
    pub values: Vec<String>,
}

impl View for AttrGroup {
    type V = GroupView;

    open spec fn view(&self) -> GroupView {
        (self.key@, self.values@.map_values(|s: String| s@))
    }
}

/// The views of a list of groups.
pub open spec fn groups_view(g: Seq<AttrGroup>) -> Seq<GroupView> {
    g.map_values(|x: AttrGroup| x@)
}

proof fn lemma_add_value_skip(g: Seq<GroupView>, j: int, k: Seq<char>, v: Seq<char>)
    requires
        0 <= j <= g.len(),
        forall|m: int| 0 <= m < j ==> lex_lt(#[trigger] g[m].0, k),
    ensures
        add_value(g, k, v) == g.subrange(0, j) + add_value(g.subrange(j, g.len() as int), k, v),
    decreases j,
{
    if j > 0 {
        let rest = g.drop_first();
        lemma_lex_total(g[0].0, k);
        assert forall|m: int| 0 <= m < j - 1 implies lex_lt(#[trigger] rest[m].0, k) by {
            assert(rest[m] == g[m + 1]);
        }
        lemma_add_value_skip(rest, j - 1, k, v);
        assert(rest.subrange(j - 1, rest.len() as int) =~= g.subrange(j, g.len() as int));
        assert(seq![g[0]] + rest.subrange(0, j - 1) =~= g.subrange(0, j));
    } else {
        assert(g.subrange(0, 0) + g.subrange(0, g.len() as int) =~= g);
    }
}

/// Adds value `v` under key `k`, keeping the groups in key order.
pub fn add_to_groups(groups: &mut Vec<AttrGroup>, k: Vec<char>, v: String)
    ensures
        groups_view(final(groups)@) == add_value(groups_view(old(groups)@), k@, v@),
{
    let ghost g = groups_view(groups@);
    let mut j: usize = 0;
    while j < groups.len() && lex_less(&groups[j].key, &k)
        invariant
            j <= groups@.len(),
            g == groups_view(groups@),
            forall|m: int| 0 <= m < j ==> lex_lt(#[trigger] g[m].0, k@),
        decreases groups@.len() - j,
    {
        j = j + 1;
    }
    proof {
        lemma_add_value_skip(g, j as int, k@, v@);
    }
    let ghost tail = g.subrange(j as int, g.len() as int);
    if j < groups.len() && crate::text::same_chars(&groups[j].key, &k) {
        let ghost before = groups@;
        groups[j].values.push(v);
        proof {
            assert(tail[0] == g[j as int]);
            assert(groups[j as int].values@.map_values(|s: String| s@) =~= before[j as int].values@.map_values(|s: String| s@).push(v@));
            assert(forall|m: int| 0 <= m < before.len() && m != j ==> groups@[m] == before[m]);
            assert(groups_view(groups@) =~= g.subrange(0, j as int) + tail.update(0, (k@, tail[0].1.push(v@))));
        }
    } else {
        let ghost before = groups@;
        let mut vals: Vec<String> = Vec::new();
        vals.push(v);
        let grp = AttrGroup { key: k, values: vals };
        assert(grp@.1 =~= seq![v@]);
        groups.insert(j, grp);
        proof {
            if j < before.len() {
                lemma_lex_total(k@, tail[0].0);
                assert(tail[0] == g[j as int]);
            }
            assert(groups_view(groups@) =~= g.subrange(0, j as int) + (seq![(k@, seq![v@])] + tail));
            if j == before.len() {
                assert(tail =~= Seq::<GroupView>::empty());
                assert(seq![(k@, seq![v@])] + tail =~= seq![(k@, seq![v@])]);
            }
        }
    }
}

/// Groups the pairs of `a` by key, keys ascending, values in source order.
pub fn group_attributes(a: &Vec<(String, String)>) -> (r: Vec<AttrGroup>)
    ensures
        groups_view(r@) == groups_of(pairs_view(a@)),
{
    let ghost av = pairs_view(a@);
    let mut groups: Vec<AttrGroup> = Vec::new();
    let mut i: usize = 0;
    assert(groups_view(groups@) =~= groups_of(av.subrange(0, 0)));
    while i < a.len()
        invariant
            i <= a@.len(),
            av == pairs_view(a@),
            groups_view(groups@) == groups_of(av.subrange(0, i as int)),
        decreases a@.len() - i,
    {
        let k = crate::text::chars_of(a[i].0.as_str());
        let v = a[i].1.clone();
        add_to_groups(&mut groups, k, v);
        assert(av.subrange(0, i + 1).drop_last() =~= av.subrange(0, i as int));
        i = i + 1;
    }
    assert(av.subrange(0, a@.len() as int) =~= av);
    groups
}

/// The label `key [index]`.
pub fn indexed_label_of(key: &Vec<char>, index: usize) -> (r: String)
    ensures
        r@ == indexed_label(key@, index as nat),
{
    let mut s = crate::text::string_of(key);
    append_str(&mut s, " [");
    append_decimal(&mut s, index);
    append_str(&mut s, "]");
    s
}

} // verus!
