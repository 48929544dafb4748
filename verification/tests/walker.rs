use prefab::data::{FieldValue, FilterPolicy, Hierarchy, HostNode, Record};
use prefab::extract::extract;
use prefab::walk::walk;

fn rec(ty: &[u8], values: Vec<FieldValue>) -> Record {
    Record { ty: ty.to_vec(), values }
}

fn demo_hierarchy() -> Hierarchy {
    // R(1) has children A(2, leaf) and B(3, branch); B has child C(4, leaf).
    let full = |kids: Vec<u64>| {
        vec![
            rec(b"demo::Transform", vec![FieldValue::Int(7)]),
            rec(b"demo::GlobalTransform", vec![FieldValue::Int(7)]),
            rec(b"demo::Children", vec![FieldValue::Refs(kids)]),
        ]
    };
    Hierarchy {
        nodes: vec![
            HostNode { id: 1, leaf: false, children: vec![2, 3], records: full(vec![2, 3]) },
            HostNode { id: 2, leaf: true, children: vec![], records: full(vec![]) },
            HostNode { id: 3, leaf: false, children: vec![4], records: full(vec![4]) },
            HostNode { id: 4, leaf: true, children: vec![5], records: full(vec![5]) },
            HostNode { id: 5, leaf: false, children: vec![], records: full(vec![]) },
        ],
    }
}

fn demo_policy() -> FilterPolicy {
    FilterPolicy {
        branch_deny: vec![b"demo::GlobalTransform".to_vec()],
        leaf_deny: vec![b"demo::GlobalTransform".to_vec(), b"demo::Children".to_vec()],
    }
}

#[test]
fn walk_classifies_branches_and_leaves() {
    let h = demo_hierarchy();
    let (branch, leaves) = walk(&h, 1);
    // the pending list is a stack, so B(3) is visited before A(2)
    assert_eq!(branch, vec![1, 3]);
    assert_eq!(leaves, vec![4, 2]);
}

#[test]
fn walk_never_descends_into_leaves() {
    let h = demo_hierarchy();
    let (branch, leaves) = walk(&h, 1);
    // node 5 is only reachable through the leaf 4, so it is never visited
    assert!(!branch.contains(&5));
    assert!(!leaves.contains(&5));
}

#[test]
fn root_is_branch_even_when_leaf_predicate_holds() {
    let h = Hierarchy {
        nodes: vec![
            HostNode { id: 9, leaf: true, children: vec![8], records: vec![] },
            HostNode { id: 8, leaf: true, children: vec![], records: vec![] },
        ],
    };
    let (branch, leaves) = walk(&h, 9);
    assert_eq!(branch, vec![9]);
    assert_eq!(leaves, vec![8]);
}

#[test]
fn walk_root_without_entry_yields_root_only() {
    let h = Hierarchy { nodes: vec![] };
    let (branch, leaves) = walk(&h, 42);
    assert_eq!(branch, vec![42]);
    assert!(leaves.is_empty());
}

#[test]
fn walk_terminates_on_a_cycle() {
    let h = Hierarchy {
        nodes: vec![
            HostNode { id: 1, leaf: false, children: vec![2], records: vec![] },
            HostNode { id: 2, leaf: false, children: vec![1], records: vec![] },
        ],
    };
    let (branch, leaves) = walk(&h, 1);
    assert_eq!(branch, vec![1, 2]);
    assert!(leaves.is_empty());
}

#[test]
fn extract_applies_the_deny_lists_per_classification() {
    let h = demo_hierarchy();
    let (branch, leaves) = walk(&h, 1);
    let snap = extract(&h, &branch, &leaves, &demo_policy());
    assert_eq!(snap.nodes.len(), 4);
    // branch entries first, in walk order, then leaf entries
    assert_eq!(snap.nodes[0].id, 1);
    assert_eq!(snap.nodes[1].id, 3);
    assert_eq!(snap.nodes[2].id, 4);
    assert_eq!(snap.nodes[3].id, 2);
    for n in &snap.nodes[0..2] {
        let tys: Vec<&[u8]> = n.records.iter().map(|r| r.ty.as_slice()).collect();
        assert!(tys.contains(&b"demo::Transform".as_slice()));
        assert!(tys.contains(&b"demo::Children".as_slice()));
        assert!(!tys.contains(&b"demo::GlobalTransform".as_slice()));
    }
    for n in &snap.nodes[2..4] {
        let tys: Vec<&[u8]> = n.records.iter().map(|r| r.ty.as_slice()).collect();
        assert!(tys.contains(&b"demo::Transform".as_slice()));
        assert!(!tys.contains(&b"demo::Children".as_slice()));
        assert!(!tys.contains(&b"demo::GlobalTransform".as_slice()));
    }
}

#[test]
fn leaf_exclusion_holds_even_when_the_leaf_has_children() {
    // the leaf node 4 carries a hierarchy-relation record naming child 5,
    // but the leaf deny list strips it from the snapshot
    let h = demo_hierarchy();
    let (branch, leaves) = walk(&h, 1);
    assert!(leaves.contains(&4));
    let snap = extract(&h, &branch, &leaves, &demo_policy());
    let entry = snap.nodes.iter().find(|n| n.id == 4).unwrap();
    assert!(entry.records.iter().all(|r| r.ty != b"demo::Children".to_vec()));
}

#[test]
fn extraction_is_pure_and_idempotent() {
    let h = demo_hierarchy();
    let (branch, leaves) = walk(&h, 1);
    let policy = demo_policy();
    let once = extract(&h, &branch, &leaves, &policy);
    let twice = extract(&h, &branch, &leaves, &policy);
    assert_eq!(once, twice);
}

#[test]
fn extract_of_an_absent_node_yields_an_empty_entry() {
    let h = demo_hierarchy();
    let snap = extract(&h, &vec![77], &vec![], &demo_policy());
    assert_eq!(snap.nodes.len(), 1);
    assert_eq!(snap.nodes[0].id, 77);
    assert!(snap.nodes[0].records.is_empty());
}
