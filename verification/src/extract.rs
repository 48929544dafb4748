//! Subgraph extractor: projects the classified node sets into a portable
//! snapshot, keeping for each node exactly the records its deny list allows.

use vstd::prelude::*;
use crate::data::{
    bytes_eq, children_of, find_node, find_node_from, records_of, FieldValue, FilterPolicy,
    Hierarchy, HostNodeModel, PolicyModel, Record, RecordModel, Snapshot, SnapshotNode,
    SnapshotNodeModel, ValueModel,
};
use crate::walk::walk_ok;

verus! {

/// `ty` occurs in the deny list.
pub open spec fn denied(deny: Seq<Seq<u8>>, ty: Seq<u8>) -> bool {
    exists|i: int| 0 <= i < deny.len() && deny[i] == ty
}

/// The records that survive a deny list, in their original order.
pub open spec fn filter_recs(recs: Seq<RecordModel>, deny: Seq<Seq<u8>>) -> Seq<RecordModel> {
    recs.filter(|r: RecordModel| !denied(deny, r.ty))
}

/// The snapshot the extractor owes: the branch nodes in order, then the leaf
/// nodes in order, each carrying the records of the live node as filtered by
/// the deny list of its classification.
pub open spec fn extract_spec(
    ns: Seq<HostNodeModel>,
    branch: Seq<u64>,
    leaves: Seq<u64>,
    pol: PolicyModel,
) -> Seq<SnapshotNodeModel> {
    Seq::new(
        branch.len() + leaves.len(),
        |i: int|
            if i < branch.len() {
                SnapshotNodeModel {
                    id: branch[i],
                    records: filter_recs(records_of(ns, branch[i]), pol.branch_deny),
                }
            } else {
                SnapshotNodeModel {
                    id: leaves[i - branch.len()],
                    records: filter_recs(records_of(ns, leaves[i - branch.len()]), pol.leaf_deny),
                }
            },
    )
}

/// The deny-list view of a list of type names.
pub open spec fn names_model(v: Seq<Vec<u8>>) -> Seq<Seq<u8>> {
    v.map_values(|n: Vec<u8>| n@)
}

/// `ty` stands in `deny`.
pub fn name_in(deny: &Vec<Vec<u8>>, ty: &Vec<u8>) -> (r: bool)
    ensures
        r == denied(names_model(deny@), ty@),
{
    let mut i: usize = 0;
    while i < deny.len()
        invariant
            i <= deny.len(),
            forall|j: int| 0 <= j < i ==> names_model(deny@)[j] != ty@,
        decreases deny.len() - i,
    {
        if bytes_eq(&deny[i], ty) {
            assert(names_model(deny@)[i as int] == ty@);
            return true;
        }
        i = i + 1;
    }
    false
}

/// Copies a vector of plain values.
pub fn clone_plain<T: Copy>(v: &Vec<T>) -> (r: Vec<T>)
    ensures
        r@ == v@,
{
    let mut out: Vec<T> = Vec::new();
    let mut i: usize = 0;
    while i < v.len()
        invariant
            i <= v.len(),
            out@ == v@.take(i as int),
        decreases v.len() - i,
    {
        out.push(v[i]);
        proof {
            assert(out@ =~= v@.take(i + 1 as int));
        }
        i = i + 1;
    }
    proof {
        assert(out@ =~= v@);
    }
    out
}

/// Copies a field value.
pub fn clone_value(v: &FieldValue) -> (r: FieldValue)
    ensures
        r@ == v@,
{
    match v {
        FieldValue::Bool(b) => FieldValue::Bool(*b),
        FieldValue::Int(n) => FieldValue::Int(*n),
        FieldValue::Str(s) => FieldValue::Str(clone_plain(s)),
        FieldValue::Refs(rs) => FieldValue::Refs(clone_plain(rs)),
    }
}

/// Copies a record.
pub fn clone_record(r0: &Record) -> (r: Record)
    ensures
        r@ == r0@,
{
    let ty = clone_plain(&r0.ty);
    let mut values: Vec<FieldValue> = Vec::new();
    let mut i: usize = 0;
    while i < r0.values.len()
        invariant
            i <= r0.values.len(),
            values@.len() == i,
            forall|j: int| 0 <= j < i ==> values@[j]@ == r0.values@[j]@,
        decreases r0.values.len() - i,
    {
        values.push(clone_value(&r0.values[i]));
        i = i + 1;
    }
    let r = Record { ty, values };
    proof {
        assert(r@.values =~= r0@.values);
    }
    r
}

/// Keeps, in order, the records whose type the deny list does not name.
fn filtered_records(src: &Vec<Record>, deny: &Vec<Vec<u8>>) -> (out: Vec<Record>)
    ensures
        out@.map_values(|r: Record| r@) == filter_recs(
            src@.map_values(|r: Record| r@),
            names_model(deny@),
        ),
{
    let ghost pred = |r: RecordModel| !denied(names_model(deny@), r.ty);
    let ghost src_m = src@.map_values(|r: Record| r@);
    let mut out: Vec<Record> = Vec::new();
    let mut i: usize = 0;
    proof {
        reveal(Seq::filter);
    }
    while i < src.len()
        invariant
            i <= src.len(),
            src_m == src@.map_values(|r: Record| r@),
            pred == (|r: RecordModel| !denied(names_model(deny@), r.ty)),
            out@.map_values(|r: Record| r@) == src_m.take(i as int).filter(pred),
        decreases src.len() - i,
    {
        let ghost out_pre = out@.map_values(|r: Record| r@);
        let keep = !name_in(deny, &src[i].ty);
        proof {
            reveal(Seq::filter);
            assert(src_m[i as int] == src@[i as int]@);
            assert(src_m[i as int].ty == src@[i as int].ty@);
            assert(src_m.take(i + 1 as int).drop_last() =~= src_m.take(i as int));
            assert(src_m.take(i + 1 as int).last() == src_m[i as int]);
        }
        if keep {
            out.push(clone_record(&src[i]));
            proof {
                assert(out@.map_values(|r: Record| r@) =~= out_pre.push(src_m[i as int]));
                assert(pred(src_m[i as int]));
                assert(src_m.take(i + 1 as int).filter(pred) == src_m.take(i as int).filter(
                    pred,
                ).push(src_m[i as int]));
            }
        } else {
            proof {
                assert(!pred(src_m[i as int]));
                assert(src_m.take(i + 1 as int).filter(pred) == src_m.take(i as int).filter(pred));
            }
        }
        i = i + 1;
    }
    proof {
        assert(src_m.take(src@.len() as int) =~= src_m);
    }
    out
}

/// Builds the portable snapshot for the classified node sets under the
/// given filter policy.
///
/// Extraction is a pure, side-effect-free projection: the result is fixed
/// by the hierarchy, the two node lists and the policy, as `extract_spec`
/// states, so extracting twice yields identical snapshots.  A node id with
/// no entry in the hierarchy contributes an entry with no records.
pub fn extract(
    h: &Hierarchy,
    branch: &Vec<u64>,
    leaves: &Vec<u64>,
    policy: &FilterPolicy,
) -> (s: Snapshot)
    ensures
        s@ == extract_spec(h@, branch@, leaves@, policy@),
{
    let ghost goal = extract_spec(h@, branch@, leaves@, policy@);
    let mut nodes: Vec<SnapshotNode> = Vec::new();
    let mut i: usize = 0;
    while i < branch.len()
        invariant
            i <= branch.len(),
            goal == extract_spec(h@, branch@, leaves@, policy@),
            nodes@.len() == i,
            forall|j: int| 0 <= j < i ==> nodes@[j]@ == goal[j],
        decreases branch.len() - i,
    {
        let id = branch[i];
        let records = match h.node_index(id) {
            Some(fi) => filtered_records(&h.nodes[fi].records, &policy.branch_deny),
            None => {
                proof {
                    reveal(Seq::filter);
                    assert(records_of(h@, id) =~= Seq::<RecordModel>::empty());
                }
                Vec::new()
            },
        };
        proof {
            assert(records@.map_values(|r: Record| r@) == filter_recs(
                records_of(h@, id),
                policy@.branch_deny,
            ));
        }
        nodes.push(SnapshotNode { id, records });
        i = i + 1;
    }
    let mut j: usize = 0;
    while j < leaves.len()
        invariant
            j <= leaves.len(),
            goal == extract_spec(h@, branch@, leaves@, policy@),
            nodes@.len() == branch@.len() + j,
            forall|k: int| 0 <= k < branch@.len() + j ==> nodes@[k]@ == goal[k],
        decreases leaves.len() - j,
    {
        let id = leaves[j];
        let records = match h.node_index(id) {
            Some(fi) => filtered_records(&h.nodes[fi].records, &policy.leaf_deny),
            None => {
                proof {
                    reveal(Seq::filter);
                    assert(records_of(h@, id) =~= Seq::<RecordModel>::empty());
                }
                Vec::new()
            },
        };
        proof {
            assert(records@.map_values(|r: Record| r@) == filter_recs(
                records_of(h@, id),
                policy@.leaf_deny,
            ));
        }
        nodes.push(SnapshotNode { id, records });
        j = j + 1;
    }
    let s = Snapshot { nodes };
    proof {
        assert(s@ =~= goal);
    }
    s
}

/// Law: every record of a filtered sequence survives the deny list — its
/// type is not a denied one.
pub proof fn lemma_filter_excludes(recs: Seq<RecordModel>, deny: Seq<Seq<u8>>, k: int)
    requires
        0 <= k < filter_recs(recs, deny).len(),
    ensures
        !denied(deny, filter_recs(recs, deny)[k].ty),
{
    recs.lemma_filter_pred(|r: RecordModel| !denied(deny, r.ty), k);
}

/// Law: a record type denied for leaves is absent from every leaf entry of
/// the extracted snapshot, even when the live node carried such a record.
pub proof fn lemma_leaf_exclusion(
    ns: Seq<HostNodeModel>,
    branch: Seq<u64>,
    leaves: Seq<u64>,
    pol: PolicyModel,
    t: Seq<u8>,
    j: int,
    k: int,
)
    requires
        denied(pol.leaf_deny, t),
        branch.len() <= j < branch.len() + leaves.len(),
        0 <= k < extract_spec(ns, branch, leaves, pol)[j].records.len(),
    ensures
        extract_spec(ns, branch, leaves, pol)[j].records[k].ty != t,
{
    let id = leaves[j - branch.len()];
    lemma_filter_excludes(records_of(ns, id), pol.leaf_deny, k);
}

/// A sequence every element of which satisfies the predicate is left
/// unchanged by filtering.
proof fn lemma_filter_all<A>(s: Seq<A>, pred: spec_fn(A) -> bool)
    requires
        forall|i: int| 0 <= i < s.len() ==> pred(#[trigger] s[i]),
    ensures
        s.filter(pred) == s,
    decreases s.len(),
{
    reveal(Seq::filter);
    if s.len() == 0 {
    } else {
        assert(forall|i: int|
            0 <= i < s.drop_last().len() ==> pred(#[trigger] s.drop_last()[i]));
        lemma_filter_all(s.drop_last(), pred);
        assert(pred(s.last()));
        assert(s.drop_last().push(s.last()) =~= s);
    }
}

/// Law: applying the same deny list twice yields the same records as
/// applying it once.
pub proof fn lemma_filter_idempotent(recs: Seq<RecordModel>, deny: Seq<Seq<u8>>)
    ensures
        filter_recs(filter_recs(recs, deny), deny) == filter_recs(recs, deny),
{
    let pred = |r: RecordModel| !denied(deny, r.ty);
    let once = recs.filter(pred);
    assert forall|i: int| 0 <= i < once.len() implies pred(#[trigger] once[i]) by {
        recs.lemma_filter_pred(pred, i);
    }
    lemma_filter_all(once, pred);
}

/// Law: applying the same filter policy twice to the same extraction yields
/// an identical snapshot — the records of every entry are unchanged by a
/// second pass of the deny list that produced them.
pub proof fn lemma_policy_idempotent(
    ns: Seq<HostNodeModel>,
    branch: Seq<u64>,
    leaves: Seq<u64>,
    pol: PolicyModel,
    j: int,
)
    requires
        0 <= j < branch.len() + leaves.len(),
    ensures
        filter_recs(
            extract_spec(ns, branch, leaves, pol)[j].records,
            if j < branch.len() {
                pol.branch_deny
            } else {
                pol.leaf_deny
            },
        ) == extract_spec(ns, branch, leaves, pol)[j].records,
{
    if j < branch.len() {
        lemma_filter_idempotent(records_of(ns, branch[j]), pol.branch_deny);
    } else {
        lemma_filter_idempotent(records_of(ns, leaves[j - branch.len()]), pol.leaf_deny);
    }
}

/// Every element of a filtered sequence occurs in the original.
proof fn lemma_filter_elem<A>(s: Seq<A>, pred: spec_fn(A) -> bool, i: int)
    requires
        0 <= i < s.filter(pred).len(),
    ensures
        s.contains(s.filter(pred)[i]),
    decreases s.len(),
{
    reveal(Seq::filter);
    if s.len() > 0 {
        let rest = s.drop_last();
        let x = s.filter(pred)[i];
        if pred(s.last()) && i == s.filter(pred).len() - 1 {
            assert(s[s.len() - 1] == x);
        } else {
            lemma_filter_elem(rest, pred, i);
            let k = choose|k: int| 0 <= k < rest.len() && rest[k] == x;
            assert(s[k] == x);
        }
    }
}

proof fn lemma_find_node_props(ns: Seq<HostNodeModel>, id: u64, i: int)
    requires
        0 <= i <= ns.len(),
    ensures
        find_node_from(ns, id, i) matches Some(k) ==> i <= k < ns.len() && ns[k].id == id,
    decreases ns.len() - i,
{
    if i < ns.len() && ns[i].id != id {
        lemma_find_node_props(ns, id, i + 1);
    }
}

/// The record's node references respect the hierarchy: a value carrying
/// node references occurs only in records of the hierarchy-relation type
/// `t`, and every reference it holds names one of `kids`.
pub open spec fn rec_relations_wf(r: RecordModel, t: Seq<u8>, kids: Seq<u64>) -> bool {
    forall|j: int|
        0 <= j < r.values.len() ==> match #[trigger] r.values[j] {
            ValueModel::Refs(rs) => r.ty == t && forall|q: int|
                0 <= q < rs.len() ==> kids.contains(#[trigger] rs[q]),
            _ => true,
        }
}

/// Node references in the hierarchy live only in records of the
/// hierarchy-relation type `t`, and always point at the owning node's own
/// children.
pub open spec fn relations_wf(ns: Seq<HostNodeModel>, t: Seq<u8>) -> bool {
    forall|i: int, k: int|
        0 <= i < ns.len() && 0 <= k < ns[i].records.len() ==> rec_relations_wf(
            #[trigger] ns[i].records[k],
            t,
            ns[i].children,
        )
}

/// Some snapshot entry carries the placeholder `id`.
pub open spec fn has_id(snap: Seq<SnapshotNodeModel>, id: u64) -> bool {
    exists|e: int| 0 <= e < snap.len() && #[trigger] snap[e].id == id
}

/// The value refers to snapshot entries only.
pub open spec fn val_closed(snap: Seq<SnapshotNodeModel>, v: ValueModel) -> bool {
    match v {
        ValueModel::Refs(rs) => forall|q: int|
            0 <= q < rs.len() ==> has_id(snap, #[trigger] rs[q]),
        _ => true,
    }
}

/// Every node reference in the record stays inside the snapshot.
pub open spec fn rec_closed(snap: Seq<SnapshotNodeModel>, r: RecordModel) -> bool {
    forall|j: int| 0 <= j < r.values.len() ==> val_closed(snap, #[trigger] r.values[j])
}

/// No record of the snapshot dangles: every node reference names a node
/// placeholder present in the snapshot.
pub open spec fn snapshot_closed(snap: Seq<SnapshotNodeModel>) -> bool {
    forall|e: int, k: int|
        0 <= e < snap.len() && 0 <= k < snap[e].records.len() ==> rec_closed(
            snap,
            #[trigger] snap[e].records[k],
        )
}

/// Law: no dangling relation.  When the node sets come from the walker, the
/// hierarchy's node references respect it, and the leaf deny list names the
/// hierarchy-relation type, the extracted snapshot holds no reference to a
/// node outside itself: a branch node's children were all classified into
/// the snapshot, and a leaf node's relation record is dropped, not left
/// dangling.
pub proof fn lemma_no_dangling(
    ns: Seq<HostNodeModel>,
    root: u64,
    b: Seq<u64>,
    l: Seq<u64>,
    pol: PolicyModel,
    t: Seq<u8>,
)
    requires
        walk_ok(ns, root, b, l),
        relations_wf(ns, t),
        denied(pol.leaf_deny, t),
    ensures
        snapshot_closed(extract_spec(ns, b, l, pol)),
{
    let snap = extract_spec(ns, b, l, pol);
    assert forall|x: u64| b.contains(x) || l.contains(x) implies has_id(snap, x) by {
        if b.contains(x) {
            let i = choose|i: int| 0 <= i < b.len() && b[i] == x;
            assert(snap[i].id == x);
        } else {
            let i = choose|i: int| 0 <= i < l.len() && l[i] == x;
            assert(snap[b.len() + i].id == x);
        }
    }
    assert forall|e: int, k: int|
        0 <= e < snap.len() && 0 <= k < snap[e].records.len() implies rec_closed(
        snap,
        #[trigger] snap[e].records[k],
    ) by {
        let id = if e < b.len() {
            b[e]
        } else {
            l[e - b.len()]
        };
        let deny = if e < b.len() {
            pol.branch_deny
        } else {
            pol.leaf_deny
        };
        let src = records_of(ns, id);
        let r = snap[e].records[k];
        assert(snap[e].records == filter_recs(src, deny));
        let pred = |x: RecordModel| !denied(deny, x.ty);
        lemma_filter_elem(src, pred, k);
        let m = choose|m: int| 0 <= m < src.len() && src[m] == r;
        lemma_find_node_props(ns, id, 0);
        if find_node(ns, id) is Some {
            let fi = find_node(ns, id)->Some_0;
            assert(src == ns[fi].records);
            assert(rec_relations_wf(ns[fi].records[m], t, ns[fi].children));
            assert forall|j: int| 0 <= j < r.values.len() implies val_closed(
                snap,
                #[trigger] r.values[j],
            ) by {
                match r.values[j] {
                    ValueModel::Refs(rs) => {
                        assert(r.ty == t);
                        if e < b.len() {
                            assert forall|q: int| 0 <= q < rs.len() implies has_id(
                                snap,
                                #[trigger] rs[q],
                            ) by {
                                assert(ns[fi].children.contains(rs[q]));
                                assert(children_of(ns, id) == ns[fi].children);
                                assert(children_of(ns, b[e]).contains(rs[q]));
                                assert(b.contains(rs[q]) || l.contains(rs[q]));
                            }
                        } else {
                            // a leaf's relation record is denied, so this
                            // case cannot arise
                            lemma_filter_excludes(src, deny, k);
                            assert(false);
                        }
                    },
                    _ => {},
                }
            }
        } else {
            assert(src =~= Seq::<RecordModel>::empty());
        }
    }
}

} // verus!
