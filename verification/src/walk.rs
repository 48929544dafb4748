//! Graph walker: traverses the host hierarchy from a designated root and
//! classifies every visited node as branch or leaf.

use vstd::prelude::*;
use vstd::seq_lib::seq_to_set_is_finite;
use vstd::set_lib::lemma_len_subset;
use crate::data::{Hierarchy, HostNodeModel, children_of, is_leaf, find_node};

verus! {

/// Concatenation of the child lists of all host nodes, in order.
pub open spec fn kids_cat(ns: Seq<HostNodeModel>) -> Seq<u64>
    decreases ns.len(),
{
    if ns.len() == 0 {
        Seq::empty()
    } else {
        ns[0].children + kids_cat(ns.drop_first())
    }
}

proof fn lemma_kids_cat_contains(ns: Seq<HostNodeModel>, i: int, j: int)
    requires
        0 <= i < ns.len(),
        0 <= j < ns[i].children.len(),
    ensures
        kids_cat(ns).contains(ns[i].children[j]),
    decreases i,
{
    if i == 0 {
        assert(kids_cat(ns)[j] == ns[0].children[j]);
    } else {
        lemma_kids_cat_contains(ns.drop_first(), i - 1, j);
        let rest = kids_cat(ns.drop_first());
        let x = ns.drop_first()[i - 1].children[j];
        let k = choose|k: int| 0 <= k < rest.len() && rest[k] == x;
        assert(kids_cat(ns)[ns[0].children.len() + k] == rest[k]);
        assert(ns.drop_first()[i - 1] == ns[i]);
    }
}

/// Every node id the walker can ever visit: the root and every child
/// reference held anywhere in the hierarchy.
pub open spec fn universe(ns: Seq<HostNodeModel>, root: u64) -> Seq<u64> {
    seq![root] + kids_cat(ns)
}

proof fn lemma_universe_has_child(ns: Seq<HostNodeModel>, root: u64, i: int, j: int)
    requires
        0 <= i < ns.len(),
        0 <= j < ns[i].children.len(),
    ensures
        universe(ns, root).contains(ns[i].children[j]),
{
    lemma_kids_cat_contains(ns, i, j);
    let x = ns[i].children[j];
    let rest = kids_cat(ns);
    let k = choose|k: int| 0 <= k < rest.len() && rest[k] == x;
    assert(universe(ns, root)[1 + k] == rest[k]);
}

proof fn lemma_visited_bound(vs: Seq<u64>, uni: Seq<u64>)
    requires
        vs.no_duplicates(),
        forall|i: int| 0 <= i < vs.len() ==> uni.contains(#[trigger] vs[i]),
    ensures
        vs.len() <= uni.len(),
{
    broadcast use seq_to_set_is_finite;

    vs.unique_seq_to_set();
    uni.lemma_cardinality_of_set();
    assert forall|x: u64| vs.to_set().contains(x) implies uni.to_set().contains(x) by {
        let i = choose|i: int| 0 <= i < vs.len() && vs[i] == x;
        assert(uni.contains(vs[i]));
    }
    lemma_len_subset(vs.to_set(), uni.to_set());
}

proof fn lemma_push_no_dup(s: Seq<u64>, x: u64)
    requires
        s.no_duplicates(),
        !s.contains(x),
    ensures
        s.push(x).no_duplicates(),
{
    assert forall|i: int, j: int| 0 <= i < j < s.push(x).len() implies s.push(x)[i] != s.push(
        x,
    )[j] by {
        if j == s.len() {
            assert(s.push(x)[i] == s[i]);
            assert(s.contains(s[i]));
        }
    }
}

/// `x` is a child of some node listed in `b`.
pub open spec fn reachable_from(ns: Seq<HostNodeModel>, b: Seq<u64>, x: u64) -> bool {
    exists|k: int| 0 <= k < b.len() && children_of(ns, #[trigger] b[k]).contains(x)
}

proof fn lemma_reachable_grow(ns: Seq<HostNodeModel>, b: Seq<u64>, x: u64, y: u64)
    requires
        reachable_from(ns, b, x),
    ensures
        reachable_from(ns, b.push(y), x),
{
    let k = choose|k: int| 0 <= k < b.len() && children_of(ns, b[k]).contains(x);
    assert(b.push(y)[k] == b[k]);
}

/// What the walker guarantees of its two output lists.
///
/// The root heads the branch list whatever the leaf predicate says of it;
/// no node appears twice or in both lists; every other branch node fails the
/// leaf predicate and every leaf node satisfies it; every child of a branch
/// node was classified into one of the two lists; and every node but the
/// root got there by being some branch node's child.
pub open spec fn walk_ok(ns: Seq<HostNodeModel>, root: u64, b: Seq<u64>, l: Seq<u64>) -> bool {
    &&& b.len() >= 1
    &&& b[0] == root
    &&& b.no_duplicates()
    &&& l.no_duplicates()
    &&& forall|x: u64| !(#[trigger] b.contains(x) && l.contains(x))
    &&& forall|i: int| 1 <= i < b.len() ==> !is_leaf(ns, #[trigger] b[i])
    &&& forall|i: int| 0 <= i < l.len() ==> is_leaf(ns, #[trigger] l[i])
    &&& forall|i: int, c: u64|
        #![trigger children_of(ns, b[i]).contains(c)]
        0 <= i < b.len() && children_of(ns, b[i]).contains(c) ==> b.contains(c) || l.contains(c)
    &&& forall|i: int| 1 <= i < b.len() ==> reachable_from(ns, b, #[trigger] b[i])
    &&& forall|i: int| 0 <= i < l.len() ==> reachable_from(ns, b, #[trigger] l[i])
}

/// `v` holds `x`.
pub fn contains_id(v: &Vec<u64>, x: u64) -> (r: bool)
    ensures
        r == v@.contains(x),
{
    let mut i: usize = 0;
    while i < v.len()
        invariant
            i <= v.len(),
            forall|j: int| 0 <= j < i ==> v@[j] != x,
        decreases v.len() - i,
    {
        if v[i] == x {
            return true;
        }
        i = i + 1;
    }
    false
}

impl Hierarchy {
    /// Index of the first entry for `id`; `None` when `id` has no entry.
    pub fn node_index(&self, id: u64) -> (r: Option<usize>)
        ensures
            r matches Some(i) ==> find_node(self@, id) == Some(i as int) && i < self.nodes@.len(),
            r is None ==> find_node(self@, id) is None,
    {
        let mut i: usize = 0;
        while i < self.nodes.len()
            invariant
                i <= self.nodes.len(),
                self@.len() == self.nodes@.len(),
                find_node(self@, id) == crate::data::find_node_from(self@, id, i as int),
            decreases self.nodes.len() - i,
        {
            if self.nodes[i].id == id {
                return Some(i);
            }
            i = i + 1;
        }
        None
    }

    /// The caller's leaf predicate on `id`; false for an id with no entry.
    pub fn leaf_of(&self, id: u64) -> (r: bool)
        ensures
            r == is_leaf(self@, id),
    {
        match self.node_index(id) {
            Some(i) => self.nodes[i].leaf,
            None => false,
        }
    }
}

/// Walks the hierarchy from `root`, classifying every visited node.
///
/// The root is always classified branch and is never treated as a leaf.  A
/// visited node whose leaf predicate holds is appended to the leaf list and
/// its children are not descended into; any other node is appended to the
/// branch list and its children are enqueued.  The pending list is treated
/// as a stack, so discovery order is deterministic.  A node reachable by a
/// second path is skipped rather than visited twice, so the walker also
/// terminates on hierarchies that are not trees.
pub fn walk(h: &Hierarchy, root: u64) -> (r: (Vec<u64>, Vec<u64>))
    ensures
        walk_ok(h@, root, r.0@, r.1@),
{
    let ghost ns = h@;
    let ghost uni = universe(ns, root);
    let mut branch: Vec<u64> = Vec::new();
    let mut leaves: Vec<u64> = Vec::new();
    let mut stack: Vec<u64> = Vec::new();
    branch.push(root);
    proof {
        assert(uni[0] == root);
        lemma_visited_bound(branch@ + leaves@, uni);
    }
    match h.node_index(root) {
        Some(fi) => {
            let ghost kids = children_of(ns, root);
            let mut j: usize = 0;
            while j < h.nodes[fi].children.len()
                invariant
                    0 <= fi < h.nodes@.len(),
                    ns == h@,
                    uni == universe(ns, root),
                    find_node(ns, root) == Some(fi as int),
                    kids == children_of(ns, root),
                    kids == ns[fi as int].children,
                    kids == h.nodes@[fi as int].children@,
                    j <= kids.len(),
                    stack@ == kids.take(j as int),
                decreases kids.len() - j,
            {
                stack.push(h.nodes[fi].children[j]);
                proof {
                    assert(stack@ =~= kids.take(j + 1 as int));
                }
                j = j + 1;
            }
            proof {
                assert(stack@ =~= kids);
                assert forall|k: int| 0 <= k < stack@.len() implies uni.contains(
                    #[trigger] stack@[k],
                ) by {
                    lemma_universe_has_child(ns, root, fi as int, k);
                }
            }
        },
        None => {
            proof {
                assert(children_of(ns, root) =~= Seq::<u64>::empty());
            }
        },
    }
    proof {
        assert forall|k: int| 0 <= k < stack@.len() implies reachable_from(
            ns,
            branch@,
            #[trigger] stack@[k],
        ) by {
            assert(children_of(ns, branch@[0]).contains(stack@[k]));
        }
    }
    while stack.len() > 0
        invariant
            ns == h@,
            uni == universe(ns, root),
            branch@.len() >= 1,
            branch@[0] == root,
            branch@.no_duplicates(),
            leaves@.no_duplicates(),
            forall|x: u64| !(#[trigger] branch@.contains(x) && leaves@.contains(x)),
            forall|i: int| 1 <= i < branch@.len() ==> !is_leaf(ns, #[trigger] branch@[i]),
            forall|i: int| 0 <= i < leaves@.len() ==> is_leaf(ns, #[trigger] leaves@[i]),
            forall|i: int, c: u64|
                #![trigger children_of(ns, branch@[i]).contains(c)]
                0 <= i < branch@.len() && children_of(ns, branch@[i]).contains(c)
                    ==> branch@.contains(c) || leaves@.contains(c) || stack@.contains(c),
            forall|i: int|
                1 <= i < branch@.len() ==> reachable_from(ns, branch@, #[trigger] branch@[i]),
            forall|i: int|
                0 <= i < leaves@.len() ==> reachable_from(ns, branch@, #[trigger] leaves@[i]),
            forall|k: int| 0 <= k < stack@.len() ==> reachable_from(ns, branch@, #[trigger] stack@[k]),
            forall|i: int| 0 <= i < branch@.len() ==> uni.contains(#[trigger] branch@[i]),
            forall|i: int| 0 <= i < leaves@.len() ==> uni.contains(#[trigger] leaves@[i]),
            forall|k: int| 0 <= k < stack@.len() ==> uni.contains(#[trigger] stack@[k]),
            branch@.len() + leaves@.len() <= uni.len(),
        decreases uni.len() - (branch@.len() + leaves@.len()), stack@.len(),
    {
        let ghost st_pre = stack@;
        let ghost b_pre = branch@;
        let ghost l_pre = leaves@;
        let n = stack.pop().unwrap();
        proof {
            assert(st_pre[st_pre.len() - 1] == n);
            assert(stack@ == st_pre.subrange(0, st_pre.len() - 1));
            assert(st_pre.contains(n));
            assert forall|k: int| 0 <= k < stack@.len() implies #[trigger] st_pre.contains(
                stack@[k],
            ) && stack@[k] == st_pre[k] by {}
        }
        let in_branch = contains_id(&branch, n);
        let in_leaves = contains_id(&leaves, n);
        if in_branch || in_leaves {
            proof {
                // the popped node is already classified; the closure invariant
                // survives losing its stack slot
                assert forall|i: int, c: u64|
                    #![trigger children_of(ns, branch@[i]).contains(c)]
                    0 <= i < branch@.len() && children_of(ns, branch@[i]).contains(c) implies
                    branch@.contains(c) || leaves@.contains(c) || stack@.contains(c) by {
                    if !branch@.contains(c) && !leaves@.contains(c) {
                        let k = choose|k: int| 0 <= k < st_pre.len() && st_pre[k] == c;
                        if k < st_pre.len() - 1 {
                            assert(stack@[k] == c);
                            assert(stack@.contains(c));
                        } else {
                            assert(c == n);
                        }
                    }
                }
            }
        } else if h.leaf_of(n) {
            proof {
                lemma_push_no_dup(l_pre, n);
                let vs = b_pre + l_pre.push(n);
                assert forall|i: int| 0 <= i < vs.len() implies uni.contains(#[trigger] vs[i]) by {
                    if i < b_pre.len() {
                        assert(vs[i] == b_pre[i]);
                    } else if i < vs.len() - 1 {
                        assert(vs[i] == l_pre[i - b_pre.len()]);
                    } else {
                        assert(vs[i] == n);
                    }
                }
                assert(vs.no_duplicates()) by {
                    assert forall|i: int, j: int| 0 <= i < j < vs.len() implies vs[i] != vs[j] by {
                        if j < b_pre.len() {
                        } else if i < b_pre.len() {
                            assert(vs[i] == b_pre[i]);
                            assert(vs[j] == l_pre.push(n)[j - b_pre.len()]);
                            assert(b_pre.contains(vs[i]));
                            if j < vs.len() - 1 && vs[i] == vs[j] {
                                assert(l_pre.contains(vs[j]));
                            }
                        } else {
                            assert(vs[i] == l_pre.push(n)[i - b_pre.len()]);
                            assert(vs[j] == l_pre.push(n)[j - b_pre.len()]);
                            assert(l_pre.push(n).no_duplicates());
                        }
                    }
                }
                lemma_visited_bound(vs, uni);
            }
            leaves.push(n);
            proof {
                assert(leaves@ == l_pre.push(n));
                assert(reachable_from(ns, branch@, n));
                assert forall|x: u64| !(#[trigger] branch@.contains(x) && leaves@.contains(
                    x,
                )) by {
                    if branch@.contains(x) && leaves@.contains(x) {
                        let k = choose|k: int| 0 <= k < leaves@.len() && leaves@[k] == x;
                        if k < l_pre.len() {
                            assert(l_pre.contains(x));
                        } else {
                            assert(x == n);
                        }
                    }
                }
                assert forall|i: int| 0 <= i < leaves@.len() implies is_leaf(
                    ns,
                    #[trigger] leaves@[i],
                ) by {
                    if i < l_pre.len() {
                        assert(leaves@[i] == l_pre[i]);
                    }
                }
                assert forall|i: int, c: u64|
                    #![trigger children_of(ns, branch@[i]).contains(c)]
                    0 <= i < branch@.len() && children_of(ns, branch@[i]).contains(c) implies
                    branch@.contains(c) || leaves@.contains(c) || stack@.contains(c) by {
                    if !branch@.contains(c) && !l_pre.contains(c) {
                        let k = choose|k: int| 0 <= k < st_pre.len() && st_pre[k] == c;
                        if k < st_pre.len() - 1 {
                            assert(stack@[k] == c);
                        } else {
                            assert(c == n);
                            assert(leaves@[l_pre.len() as int] == n);
                        }
                    } else if l_pre.contains(c) {
                        let k = choose|k: int| 0 <= k < l_pre.len() && l_pre[k] == c;
                        assert(leaves@[k] == c);
                    }
                }
                assert forall|i: int| 0 <= i < leaves@.len() implies reachable_from(
                    ns,
                    branch@,
                    #[trigger] leaves@[i],
                ) by {
                    if i < l_pre.len() {
                        assert(leaves@[i] == l_pre[i]);
                    }
                }
                assert forall|i: int| 0 <= i < leaves@.len() implies uni.contains(
                    #[trigger] leaves@[i],
                ) by {
                    if i < l_pre.len() {
                        assert(leaves@[i] == l_pre[i]);
                    }
                }
            }
        } else {
            proof {
                lemma_push_no_dup(b_pre, n);
                let vs = b_pre.push(n) + l_pre;
                assert forall|i: int| 0 <= i < vs.len() implies uni.contains(#[trigger] vs[i]) by {
                    if i < b_pre.len() {
                        assert(vs[i] == b_pre[i]);
                    } else if i == b_pre.len() {
                        assert(vs[i] == n);
                    } else {
                        assert(vs[i] == l_pre[i - b_pre.len() - 1]);
                    }
                }
                assert(vs.no_duplicates()) by {
                    assert forall|i: int, j: int| 0 <= i < j < vs.len() implies vs[i] != vs[j] by {
                        let bp = b_pre.push(n);
                        if j < bp.len() {
                            assert(vs[i] == bp[i]);
                            assert(vs[j] == bp[j]);
                            assert(bp.no_duplicates());
                        } else if i < bp.len() {
                            assert(vs[i] == bp[i]);
                            assert(vs[j] == l_pre[j - bp.len()]);
                            assert(l_pre.contains(vs[j]));
                            if i < b_pre.len() {
                                assert(b_pre.contains(vs[i]));
                            }
                        } else {
                            assert(vs[i] == l_pre[i - bp.len()]);
                            assert(vs[j] == l_pre[j - bp.len()]);
                        }
                    }
                }
                lemma_visited_bound(vs, uni);
            }
            branch.push(n);
            let ghost b_now = branch@;
            proof {
                assert(b_now == b_pre.push(n));
                assert(b_now[b_now.len() - 1] == n);
                assert forall|x: u64| !(#[trigger] b_now.contains(x) && l_pre.contains(x)) by {
                    if b_now.contains(x) && l_pre.contains(x) {
                        let k = choose|k: int| 0 <= k < b_now.len() && b_now[k] == x;
                        if k < b_pre.len() {
                            assert(b_pre.contains(x));
                        } else {
                            assert(x == n);
                        }
                    }
                }
                assert forall|i: int| 1 <= i < b_now.len() implies !is_leaf(
                    ns,
                    #[trigger] b_now[i],
                ) by {
                    if i < b_pre.len() {
                        assert(b_now[i] == b_pre[i]);
                    }
                }
                assert forall|i: int| 1 <= i < b_now.len() implies reachable_from(
                    ns,
                    b_now,
                    #[trigger] b_now[i],
                ) by {
                    if i < b_pre.len() {
                        assert(b_now[i] == b_pre[i]);
                        lemma_reachable_grow(ns, b_pre, b_pre[i], n);
                    } else {
                        lemma_reachable_grow(ns, b_pre, n, n);
                    }
                }
                assert forall|i: int| 0 <= i < l_pre.len() implies reachable_from(
                    ns,
                    b_now,
                    #[trigger] l_pre[i],
                ) by {
                    lemma_reachable_grow(ns, b_pre, l_pre[i], n);
                }
                assert forall|k: int| 0 <= k < stack@.len() implies reachable_from(
                    ns,
                    b_now,
                    #[trigger] stack@[k],
                ) by {
                    lemma_reachable_grow(ns, b_pre, stack@[k], n);
                }
                assert forall|i: int| 0 <= i < b_now.len() implies uni.contains(
                    #[trigger] b_now[i],
                ) by {
                    if i < b_pre.len() {
                        assert(b_now[i] == b_pre[i]);
                    }
                }
            }
            let ghost st1 = stack@;
            match h.node_index(n) {
                Some(fi) => {
                    let ghost kids = children_of(ns, n);
                    let mut j: usize = 0;
                    while j < h.nodes[fi].children.len()
                        invariant
                            0 <= fi < h.nodes@.len(),
                            ns == h@,
                            uni == universe(ns, root),
                            find_node(ns, n) == Some(fi as int),
                            kids == children_of(ns, n),
                            kids == ns[fi as int].children,
                            kids == h.nodes@[fi as int].children@,
                            j <= kids.len(),
                            stack@ == st1 + kids.take(j as int),
                            branch@ == b_now,
                            leaves@ == l_pre,
                        decreases kids.len() - j,
                    {
                        stack.push(h.nodes[fi].children[j]);
                        proof {
                            assert(stack@ =~= st1 + kids.take(j + 1 as int));
                        }
                        j = j + 1;
                    }
                    proof {
                        assert(stack@ =~= st1 + kids);
                        assert forall|k: int| 0 <= k < stack@.len() implies uni.contains(
                            #[trigger] stack@[k],
                        ) && reachable_from(ns, b_now, stack@[k]) by {
                            if k < st1.len() {
                                assert(stack@[k] == st1[k]);
                                lemma_reachable_grow(ns, b_pre, st1[k], n);
                            } else {
                                assert(stack@[k] == kids[k - st1.len()]);
                                lemma_universe_has_child(ns, root, fi as int, k - st1.len());
                                assert(children_of(ns, b_now[b_now.len() - 1]).contains(
                                    stack@[k],
                                ));
                            }
                        }
                        assert forall|i: int, c: u64|
                            #![trigger children_of(ns, b_now[i]).contains(c)]
                            0 <= i < b_now.len() && children_of(ns, b_now[i]).contains(c) implies
                            b_now.contains(c) || l_pre.contains(c) || stack@.contains(c) by {
                            if i == b_now.len() - 1 {
                                let k = choose|k: int|
                                    0 <= k < kids.len() && kids[k] == c;
                                assert(stack@[st1.len() + k] == c);
                            } else {
                                assert(b_now[i] == b_pre[i]);
                                assert(children_of(ns, b_pre[i]).contains(c));
                                if !b_pre.contains(c) && !l_pre.contains(c) {
                                    let k = choose|k: int|
                                        0 <= k < st_pre.len() && st_pre[k] == c;
                                    if k < st_pre.len() - 1 {
                                        assert(st1[k] == c);
                                        assert(stack@[k] == c);
                                    } else {
                                        assert(c == n);
                                        assert(b_now[b_now.len() - 1] == n);
                                    }
                                } else if b_pre.contains(c) {
                                    let k = choose|k: int|
                                        0 <= k < b_pre.len() && b_pre[k] == c;
                                    assert(b_now[k] == c);
                                }
                            }
                        }
                    }
                },
                None => {
                    proof {
                        assert(children_of(ns, n) =~= Seq::<u64>::empty());
                        assert forall|i: int, c: u64|
                            #![trigger children_of(ns, b_now[i]).contains(c)]
                            0 <= i < b_now.len() && children_of(ns, b_now[i]).contains(c) implies
                            b_now.contains(c) || l_pre.contains(c) || stack@.contains(c) by {
                            if i == b_now.len() - 1 {
                                assert(false);
                            } else {
                                assert(b_now[i] == b_pre[i]);
                                assert(children_of(ns, b_pre[i]).contains(c));
                                if !b_pre.contains(c) && !l_pre.contains(c) {
                                    let k = choose|k: int|
                                        0 <= k < st_pre.len() && st_pre[k] == c;
                                    if k < st_pre.len() - 1 {
                                        assert(stack@[k] == c);
                                    } else {
                                        assert(c == n);
                                        assert(b_now[b_now.len() - 1] == n);
                                    }
                                } else if b_pre.contains(c) {
                                    let k = choose|k: int|
                                        0 <= k < b_pre.len() && b_pre[k] == c;
                                    assert(b_now[k] == c);
                                }
                            }
                        }
                    }
                },
            }
        }
    }
    proof {
        assert(stack@.len() == 0);
    }
    (branch, leaves)
}

/// Law: the root node always stands in the branch list and never in the
/// leaf list, whatever the leaf predicate says of it.
pub proof fn lemma_root_never_leaf(ns: Seq<HostNodeModel>, root: u64, b: Seq<u64>, l: Seq<u64>)
    requires
        walk_ok(ns, root, b, l),
    ensures
        b.contains(root),
        !l.contains(root),
{
    assert(b[0] == root);
    assert(b.contains(root));
}

} // verus!
