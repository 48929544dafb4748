//! Data model: records, snapshots, prefabs, the type registry, the filter
//! policy, and the host hierarchy as plain values, together with the ghost
//! models that the contracts speak about.

use vstd::prelude::*;

verus! {

/// The shape of one field of a registered record type.
#[derive(Clone, Copy, PartialEq, Eq, Structural, Debug)]
pub enum FieldKind {
    /// A boolean field.
    Bool,
    /// A signed integer field.
    Int,
    /// A byte-string field.
    Str,
    /// A field holding an ordered list of node references.
    Refs,
}

/// A field value carried by a record: plain data only.
#[derive(Clone, PartialEq, Debug)]
pub enum FieldValue {
    Bool(bool),
    Int(i64),
    Str(Vec<u8>),
    Refs(Vec<u64>),
}

/// Ghost model of a field value.
pub ghost enum ValueModel {
    Bool(bool),
    Int(i64),
    Str(Seq<u8>),
    Refs(Seq<u64>),
}

impl View for FieldValue {
    type V = ValueModel;

    open spec fn view(&self) -> ValueModel {
        match self {
            FieldValue::Bool(b) => ValueModel::Bool(*b),
            FieldValue::Int(n) => ValueModel::Int(*n),
            FieldValue::Str(s) => ValueModel::Str(s@),
            FieldValue::Refs(r) => ValueModel::Refs(r@),
        }
    }
}

/// The field kind a value belongs to.
pub open spec fn kind_of(v: ValueModel) -> FieldKind {
    match v {
        ValueModel::Bool(_) => FieldKind::Bool,
        ValueModel::Int(_) => FieldKind::Int,
        ValueModel::Str(_) => FieldKind::Str,
        ValueModel::Refs(_) => FieldKind::Refs,
    }
}

/// Declaration of one field of a registered type: its name and its kind.
#[derive(Clone, PartialEq, Debug)]
pub struct FieldDecl {
    pub name: Vec<u8>,
    pub kind: FieldKind,
}

/// Ghost model of a field declaration.
pub ghost struct FieldDeclModel {
    pub name: Seq<u8>,
    pub kind: FieldKind,
}

impl View for FieldDecl {
    type V = FieldDeclModel;

    open spec fn view(&self) -> FieldDeclModel {
        FieldDeclModel { name: self.name@, kind: self.kind }
    }
}

/// One registered record type: its identifier and its declared field shape.
#[derive(Clone, PartialEq, Debug)]
pub struct TypeEntry {
    pub name: Vec<u8>,
    pub fields: Vec<FieldDecl>,
}

/// Ghost model of a registry entry.
pub ghost struct TypeEntryModel {
    pub name: Seq<u8>,
    pub fields: Seq<FieldDeclModel>,
}

impl View for TypeEntry {
    type V = TypeEntryModel;

    open spec fn view(&self) -> TypeEntryModel {
        TypeEntryModel {
            name: self.name@,
            fields: self.fields@.map_values(|d: FieldDecl| d@),
        }
    }
}

/// The runtime type registry: maps a type identifier to the declared shape
/// used to encode and decode records of that type.  Explicitly constructed
/// and explicitly passed, so isolated registries can be built for tests.
#[derive(Clone, PartialEq, Debug)]
pub struct TypeRegistry {
    pub types: Vec<TypeEntry>,
}

impl View for TypeRegistry {
    type V = Seq<TypeEntryModel>;

    open spec fn view(&self) -> Seq<TypeEntryModel> {
        self.types@.map_values(|t: TypeEntry| t@)
    }
}

/// A typed record attached to a node.  `values` stands in the order of the
/// registered field declarations of the type `ty` names.
#[derive(Clone, PartialEq, Debug)]
pub struct Record {
    pub ty: Vec<u8>,
    pub values: Vec<FieldValue>,
}

/// Ghost model of a record.
pub ghost struct RecordModel {
    pub ty: Seq<u8>,
    pub values: Seq<ValueModel>,
}

impl View for Record {
    type V = RecordModel;

    open spec fn view(&self) -> RecordModel {
        RecordModel {
            ty: self.ty@,
            values: self.values@.map_values(|v: FieldValue| v@),
        }
    }
}

/// One entry of a portable snapshot: a node placeholder and the records the
/// extraction policy kept for it.
#[derive(Clone, PartialEq, Debug)]
pub struct SnapshotNode {
    pub id: u64,
    pub records: Vec<Record>,
}

/// Ghost model of a snapshot entry.
pub ghost struct SnapshotNodeModel {
    pub id: u64,
    pub records: Seq<RecordModel>,
}

impl View for SnapshotNode {
    type V = SnapshotNodeModel;

    open spec fn view(&self) -> SnapshotNodeModel {
        SnapshotNodeModel {
            id: self.id,
            records: self.records@.map_values(|r: Record| r@),
        }
    }
}

/// A portable snapshot: an ordered sequence of selected nodes with their
/// selected records, decoupled from the live hierarchy.
#[derive(Clone, PartialEq, Debug)]
pub struct Snapshot {
    pub nodes: Vec<SnapshotNode>,
}

impl View for Snapshot {
    type V = Seq<SnapshotNodeModel>;

    open spec fn view(&self) -> Seq<SnapshotNodeModel> {
        self.nodes@.map_values(|n: SnapshotNode| n@)
    }
}

/// A named portable snapshot: the unit of interchange.
#[derive(Clone, PartialEq, Debug)]
pub struct Prefab {
    pub name: Vec<u8>,
    pub scene: Snapshot,
}

/// Ghost model of a prefab.
pub ghost struct PrefabModel {
    pub name: Seq<u8>,
    pub scene: Seq<SnapshotNodeModel>,
}

impl View for Prefab {
    type V = PrefabModel;

    open spec fn view(&self) -> PrefabModel {
        PrefabModel { name: self.name@, scene: self.scene@ }
    }
}

/// A pair of deny-lists of record type names: one applied to branch nodes,
/// one to leaf nodes.
#[derive(Clone, PartialEq, Debug)]
pub struct FilterPolicy {
    pub branch_deny: Vec<Vec<u8>>,
    pub leaf_deny: Vec<Vec<u8>>,
}

/// Ghost model of a filter policy.
pub ghost struct PolicyModel {
    pub branch_deny: Seq<Seq<u8>>,
    pub leaf_deny: Seq<Seq<u8>>,
}

impl View for FilterPolicy {
    type V = PolicyModel;

    open spec fn view(&self) -> PolicyModel {
        PolicyModel {
            branch_deny: self.branch_deny@.map_values(|n: Vec<u8>| n@),
            leaf_deny: self.leaf_deny@.map_values(|n: Vec<u8>| n@),
        }
    }
}

/// One node of the host hierarchy as the walker and the extractor read it:
/// its identifier, whether the caller's leaf predicate holds of it, its
/// ordered children, and its attached records.
#[derive(Clone, PartialEq, Debug)]
pub struct HostNode {
    pub id: u64,
    pub leaf: bool,
    pub children: Vec<u64>,
    pub records: Vec<Record>,
}

/// Ghost model of a host node.
pub ghost struct HostNodeModel {
    pub id: u64,
    pub leaf: bool,
    pub children: Seq<u64>,
    pub records: Seq<RecordModel>,
}

impl View for HostNode {
    type V = HostNodeModel;

    open spec fn view(&self) -> HostNodeModel {
        HostNodeModel {
            id: self.id,
            leaf: self.leaf,
            children: self.children@,
            records: self.records@.map_values(|r: Record| r@),
        }
    }
}

/// The host hierarchy as plain values.  A node id that appears nowhere in
/// `nodes` is treated as having no children, no records, and a false leaf
/// predicate.
#[derive(Clone, PartialEq, Debug)]
pub struct Hierarchy {
    pub nodes: Vec<HostNode>,
}

impl View for Hierarchy {
    type V = Seq<HostNodeModel>;

    open spec fn view(&self) -> Seq<HostNodeModel> {
        self.nodes@.map_values(|n: HostNode| n@)
    }
}

/// Index of the first host node with identifier `id`, scanning from `i`.
pub open spec fn find_node_from(ns: Seq<HostNodeModel>, id: u64, i: int) -> Option<int>
    decreases ns.len() - i,
{
    if i < 0 || i >= ns.len() {
        None
    } else if ns[i].id == id {
        Some(i)
    } else {
        find_node_from(ns, id, i + 1)
    }
}

/// Index of the first host node with identifier `id`.
pub open spec fn find_node(ns: Seq<HostNodeModel>, id: u64) -> Option<int> {
    find_node_from(ns, id, 0)
}

/// Ordered children of `id`; empty when `id` has no entry.
pub open spec fn children_of(ns: Seq<HostNodeModel>, id: u64) -> Seq<u64> {
    match find_node(ns, id) {
        Some(i) => ns[i].children,
        None => Seq::empty(),
    }
}

/// The caller's leaf predicate on `id`; false when `id` has no entry.
pub open spec fn is_leaf(ns: Seq<HostNodeModel>, id: u64) -> bool {
    match find_node(ns, id) {
        Some(i) => ns[i].leaf,
        None => false,
    }
}

/// Records attached to `id`; empty when `id` has no entry.
pub open spec fn records_of(ns: Seq<HostNodeModel>, id: u64) -> Seq<RecordModel> {
    match find_node(ns, id) {
        Some(i) => ns[i].records,
        None => Seq::empty(),
    }
}

/// Byte-string equality, stated over the views.
pub fn bytes_eq(a: &Vec<u8>, b: &Vec<u8>) -> (r: bool)
    ensures
        r <==> a@ == b@,
{
    if a.len() != b.len() {
        return false;
    }
    let mut i: usize = 0;
    while i < a.len()
        invariant
            i <= a.len(),
            a.len() == b.len(),
            forall|j: int| 0 <= j < i ==> a@[j] == b@[j],
        decreases a.len() - i,
    {
        if a[i] != b[i] {
            return false;
        }
        i = i + 1;
    }
    proof {
        assert(a@ =~= b@);
    }
    true
}

/// Index of the first registry entry named `ty`, scanning from `i`.
pub open spec fn resolve_from(reg: Seq<TypeEntryModel>, ty: Seq<u8>, i: int) -> Option<int>
    decreases reg.len() - i,
{
    if i < 0 || i >= reg.len() {
        None
    } else if reg[i].name == ty {
        Some(i)
    } else {
        resolve_from(reg, ty, i + 1)
    }
}

/// Index of the first registry entry named `ty`.
pub open spec fn resolve_spec(reg: Seq<TypeEntryModel>, ty: Seq<u8>) -> Option<int> {
    resolve_from(reg, ty, 0)
}

impl TypeRegistry {
    /// Looks the type identifier `ty` up; `None` when it is unregistered.
    pub fn resolve(&self, ty: &Vec<u8>) -> (r: Option<usize>)
        ensures
            r matches Some(i) ==> resolve_spec(self@, ty@) == Some(i as int) && i < self.types@.len(),
            r is None ==> resolve_spec(self@, ty@) is None,
    {
        let mut i: usize = 0;
        while i < self.types.len()
            invariant
                i <= self.types.len(),
                self@.len() == self.types@.len(),
                resolve_spec(self@, ty@) == resolve_from(self@, ty@, i as int),
            decreases self.types.len() - i,
        {
            if bytes_eq(&self.types[i].name, ty) {
                return Some(i);
            }
            i = i + 1;
        }
        None
    }
}

/// The value `v` matches the declared kind `k`.
pub open spec fn value_matches(v: ValueModel, k: FieldKind) -> bool {
    kind_of(v) == k
}

/// The record is encodable under the registry: its type is registered and
/// its values match the declared field shape one for one.
pub open spec fn record_ok(reg: Seq<TypeEntryModel>, r: RecordModel) -> bool {
    match resolve_spec(reg, r.ty) {
        Some(i) => {
            &&& r.values.len() == reg[i].fields.len()
            &&& forall|j: int|
                0 <= j < r.values.len() ==> value_matches(
                    #[trigger] r.values[j],
                    reg[i].fields[j].kind,
                )
        },
        None => false,
    }
}

/// Every record of the snapshot entry is encodable under the registry.
pub open spec fn node_ok(reg: Seq<TypeEntryModel>, n: SnapshotNodeModel) -> bool {
    forall|j: int| 0 <= j < n.records.len() ==> record_ok(reg, #[trigger] n.records[j])
}

/// Every record of the prefab's snapshot is encodable under the registry.
pub open spec fn prefab_ok(reg: Seq<TypeEntryModel>, p: PrefabModel) -> bool {
    forall|i: int| 0 <= i < p.scene.len() ==> node_ok(reg, #[trigger] p.scene[i])
}

} // verus!
