//! Prefab codec, write path: the document the serializer owes, byte by byte,
//! and the verified serializer that emits it.
//!
//! The document is a structured, whitespace-insensitive textual notation:
//! parenthesised structs with named fields, bracketed sequences, quoted byte
//! strings, decimal integers and the literals `true` / `false`.  The pretty
//! layout is fixed — two-space indentation, `\n` line ends, a trailing comma
//! after every element — so that equal prefabs give byte-identical text.

use vstd::prelude::*;
use vstd::pervasive::unreached;
use crate::data::{
    node_ok, prefab_ok, record_ok, resolve_spec, value_matches, FieldDecl, FieldDeclModel,
    FieldKind, FieldValue, Prefab, PrefabModel, Record, RecordModel, SnapshotNode,
    SnapshotNodeModel, TypeEntryModel, TypeRegistry, ValueModel,
};

verus! {

/// A whitespace byte: space, tab, line feed or carriage return.
pub open spec fn is_ws(b: u8) -> bool {
    b == 32 || b == 9 || b == 10 || b == 13
}

/// A decimal digit byte.
pub open spec fn is_digit(b: u8) -> bool {
    48 <= b <= 57
}

/// A line break followed by two spaces of indentation per depth level.
pub open spec fn nl(d: nat) -> Seq<u8> {
    seq![10u8] + Seq::new(2 * d, |i: int| 32u8)
}

/// The fixed top-level field keyword `name`.
pub open spec fn lit_name() -> Seq<u8> {
    seq![110u8, 97u8, 109u8, 101u8]
}

/// The fixed top-level field keyword `scene`.
pub open spec fn lit_scene() -> Seq<u8> {
    seq![115u8, 99u8, 101u8, 110u8, 101u8]
}

/// The fixed entity field keyword `entity`.
pub open spec fn lit_entity() -> Seq<u8> {
    seq![101u8, 110u8, 116u8, 105u8, 116u8, 121u8]
}

/// The fixed entity field keyword `records`.
pub open spec fn lit_records() -> Seq<u8> {
    seq![114u8, 101u8, 99u8, 111u8, 114u8, 100u8, 115u8]
}

/// The fixed record field keyword `type`.
pub open spec fn lit_type() -> Seq<u8> {
    seq![116u8, 121u8, 112u8, 101u8]
}

/// The boolean literal `true`.
pub open spec fn lit_true() -> Seq<u8> {
    seq![116u8, 114u8, 117u8, 101u8]
}

/// The boolean literal `false`.
pub open spec fn lit_false() -> Seq<u8> {
    seq![102u8, 97u8, 108u8, 115u8, 101u8]
}

/// Decimal digits of `n`, most significant first.
pub open spec fn dec_digits(n: nat) -> Seq<u8>
    decreases n,
{
    if n < 10 {
        seq![(48 + n) as u8]
    } else {
        dec_digits(n / 10) + seq![(48 + n % 10) as u8]
    }
}

/// Decimal encoding of an unsigned node id.
pub open spec fn enc_u64(n: u64) -> Seq<u8> {
    dec_digits(n as nat)
}

/// Decimal encoding of a signed field value, with a leading minus sign when
/// negative.
pub open spec fn enc_i64(n: i64) -> Seq<u8> {
    if n >= 0 {
        dec_digits(n as nat)
    } else {
        seq![45u8] + dec_digits((-(n as int)) as nat)
    }
}

/// A byte of a quoted string: quote and backslash are backslash-escaped,
/// every other byte stands for itself.
pub open spec fn esc_byte(b: u8) -> Seq<u8> {
    if b == 34 || b == 92 {
        seq![92u8, b]
    } else {
        seq![b]
    }
}

/// The escaped body of a quoted string.
pub open spec fn esc(s: Seq<u8>) -> Seq<u8>
    decreases s.len(),
{
    if s.len() == 0 {
        Seq::empty()
    } else {
        esc_byte(s[0]) + esc(s.drop_first())
    }
}

/// A quoted, escaped byte string.
pub open spec fn enc_str(s: Seq<u8>) -> Seq<u8> {
    seq![34u8] + esc(s) + seq![34u8]
}

/// The items of a reference list, each followed by a comma.
pub open spec fn enc_refs(rs: Seq<u64>) -> Seq<u8>
    decreases rs.len(),
{
    if rs.len() == 0 {
        Seq::empty()
    } else {
        enc_u64(rs[0]) + seq![44u8] + enc_refs(rs.drop_first())
    }
}

/// One field value.
pub open spec fn enc_val(v: ValueModel) -> Seq<u8> {
    match v {
        ValueModel::Bool(b) => if b {
            lit_true()
        } else {
            lit_false()
        },
        ValueModel::Int(n) => enc_i64(n),
        ValueModel::Str(s) => enc_str(s),
        ValueModel::Refs(rs) => seq![91u8] + enc_refs(rs) + seq![93u8],
    }
}

/// The named fields of a record, one per line at depth `d`, each followed by
/// a comma, names taken from the registered declarations in order.
pub open spec fn enc_fields(decls: Seq<FieldDeclModel>, vals: Seq<ValueModel>, d: nat) -> Seq<u8>
    decreases vals.len(),
{
    if vals.len() == 0 || decls.len() == 0 {
        Seq::empty()
    } else {
        nl(d) + enc_str(decls[0].name) + seq![58u8, 32u8] + enc_val(vals[0]) + seq![44u8]
            + enc_fields(decls.drop_first(), vals.drop_first(), d)
    }
}

/// One record at depth `d`: its registered type name under the fixed key
/// `type`, then its fields in declaration order.
pub open spec fn enc_rec(reg: Seq<TypeEntryModel>, r: RecordModel, d: nat) -> Seq<u8> {
    let fields = match resolve_spec(reg, r.ty) {
        Some(i) => reg[i].fields,
        None => Seq::empty(),
    };
    seq![40u8] + nl(d + 1) + lit_type() + seq![58u8, 32u8] + enc_str(r.ty) + seq![44u8]
        + enc_fields(fields, r.values, d + 1) + nl(d) + seq![41u8]
}

/// The records of one snapshot entry, each on its own line at depth `d` and
/// followed by a comma.
pub open spec fn enc_recs(reg: Seq<TypeEntryModel>, rs: Seq<RecordModel>, d: nat) -> Seq<u8>
    decreases rs.len(),
{
    if rs.len() == 0 {
        Seq::empty()
    } else {
        nl(d) + enc_rec(reg, rs[0], d) + seq![44u8] + enc_recs(reg, rs.drop_first(), d)
    }
}

/// One snapshot entry at depth `d`: its placeholder id under the fixed key
/// `entity`, then its record list under the fixed key `records`.
pub open spec fn enc_node(reg: Seq<TypeEntryModel>, n: SnapshotNodeModel, d: nat) -> Seq<u8> {
    seq![40u8] + nl(d + 1) + lit_entity() + seq![58u8, 32u8] + enc_u64(n.id) + seq![44u8] + nl(
        d + 1,
    ) + lit_records() + seq![58u8, 32u8, 91u8] + enc_recs(reg, n.records, d + 2) + nl(d + 1)
        + seq![93u8, 44u8] + nl(d) + seq![41u8]
}

/// The snapshot entries, each on its own line at depth 2 and followed by a
/// comma.
pub open spec fn enc_nodes(reg: Seq<TypeEntryModel>, ns: Seq<SnapshotNodeModel>) -> Seq<u8>
    decreases ns.len(),
{
    if ns.len() == 0 {
        Seq::empty()
    } else {
        nl(2) + enc_node(reg, ns[0], 2) + seq![44u8] + enc_nodes(reg, ns.drop_first())
    }
}

/// The whole document: exactly two named fields in fixed order, `name` then
/// `scene`.
pub open spec fn enc_prefab(reg: Seq<TypeEntryModel>, p: PrefabModel) -> Seq<u8> {
    seq![40u8] + nl(1) + lit_name() + seq![58u8, 32u8] + enc_str(p.name) + seq![44u8] + nl(1)
        + lit_scene() + seq![58u8, 32u8, 91u8] + enc_nodes(reg, p.scene) + nl(1)
        + seq![93u8, 44u8] + nl(0) + seq![41u8]
}

proof fn lemma_esc_snoc(q: Seq<u8>, x: u8)
    ensures
        esc(q.push(x)) == esc(q) + esc_byte(x),
    decreases q.len(),
{
    let qp = q.push(x);
    if q.len() == 0 {
        assert(qp[0] == x);
        assert(qp.drop_first() =~= Seq::<u8>::empty());
        assert(esc(qp) =~= esc(q) + esc_byte(x));
    } else {
        assert(qp[0] == q[0]);
        assert(qp.drop_first() =~= q.drop_first().push(x));
        lemma_esc_snoc(q.drop_first(), x);
        assert(esc(qp) == esc_byte(qp[0]) + esc(qp.drop_first()));
        assert(esc(q) == esc_byte(q[0]) + esc(q.drop_first()));
        assert(esc(qp) =~= esc(q) + esc_byte(x));
    }
}

proof fn lemma_enc_refs_snoc(rs: Seq<u64>, x: u64)
    ensures
        enc_refs(rs.push(x)) == enc_refs(rs) + enc_u64(x) + seq![44u8],
    decreases rs.len(),
{
    let rp = rs.push(x);
    if rs.len() == 0 {
        assert(rp[0] == x);
        assert(rp.drop_first() =~= Seq::<u64>::empty());
        assert(enc_refs(rp) =~= enc_refs(rs) + enc_u64(x) + seq![44u8]);
    } else {
        assert(rp[0] == rs[0]);
        assert(rp.drop_first() =~= rs.drop_first().push(x));
        lemma_enc_refs_snoc(rs.drop_first(), x);
        assert(enc_refs(rp) == enc_u64(rp[0]) + seq![44u8] + enc_refs(rp.drop_first()));
        assert(enc_refs(rs) == enc_u64(rs[0]) + seq![44u8] + enc_refs(rs.drop_first()));
        assert(enc_refs(rp) =~= enc_refs(rs) + enc_u64(x) + seq![44u8]);
    }
}

proof fn lemma_enc_fields_snoc(
    ds: Seq<FieldDeclModel>,
    vs: Seq<ValueModel>,
    dd: FieldDeclModel,
    vv: ValueModel,
    d: nat,
)
    requires
        ds.len() == vs.len(),
    ensures
        enc_fields(ds.push(dd), vs.push(vv), d) == enc_fields(ds, vs, d) + nl(d) + enc_str(
            dd.name,
        ) + seq![58u8, 32u8] + enc_val(vv) + seq![44u8],
    decreases vs.len(),
{
    let dp = ds.push(dd);
    let vp = vs.push(vv);
    if vs.len() == 0 {
        assert(dp[0] == dd);
        assert(vp[0] == vv);
        assert(dp.drop_first() =~= Seq::<FieldDeclModel>::empty());
        assert(vp.drop_first() =~= Seq::<ValueModel>::empty());
        assert(enc_fields(dp, vp, d) =~= enc_fields(ds, vs, d) + nl(d) + enc_str(dd.name) + seq![
            58u8,
            32u8,
        ] + enc_val(vv) + seq![44u8]);
    } else {
        assert(dp[0] == ds[0]);
        assert(vp[0] == vs[0]);
        assert(dp.drop_first() =~= ds.drop_first().push(dd));
        assert(vp.drop_first() =~= vs.drop_first().push(vv));
        lemma_enc_fields_snoc(ds.drop_first(), vs.drop_first(), dd, vv, d);
        assert(enc_fields(dp, vp, d) == nl(d) + enc_str(dp[0].name) + seq![58u8, 32u8] + enc_val(
            vp[0],
        ) + seq![44u8] + enc_fields(dp.drop_first(), vp.drop_first(), d));
        assert(enc_fields(ds, vs, d) == nl(d) + enc_str(ds[0].name) + seq![58u8, 32u8] + enc_val(
            vs[0],
        ) + seq![44u8] + enc_fields(ds.drop_first(), vs.drop_first(), d));
        assert(enc_fields(dp, vp, d) =~= enc_fields(ds, vs, d) + nl(d) + enc_str(dd.name) + seq![
            58u8,
            32u8,
        ] + enc_val(vv) + seq![44u8]);
    }
}

proof fn lemma_enc_recs_snoc(reg: Seq<TypeEntryModel>, rs: Seq<RecordModel>, x: RecordModel, d: nat)
    ensures
        enc_recs(reg, rs.push(x), d) == enc_recs(reg, rs, d) + nl(d) + enc_rec(reg, x, d) + seq![
            44u8,
        ],
    decreases rs.len(),
{
    let rp = rs.push(x);
    if rs.len() == 0 {
        assert(rp[0] == x);
        assert(rp.drop_first() =~= Seq::<RecordModel>::empty());
        assert(enc_recs(reg, rp.drop_first(), d) == Seq::<u8>::empty());
        assert(enc_recs(reg, rp, d) == nl(d) + enc_rec(reg, rp[0], d) + seq![44u8] + enc_recs(
            reg,
            rp.drop_first(),
            d,
        ));
        assert(enc_recs(reg, rp, d) =~= enc_recs(reg, rs, d) + nl(d) + enc_rec(reg, x, d) + seq![
            44u8,
        ]);
    } else {
        assert(rp[0] == rs[0]);
        assert(rp.drop_first() =~= rs.drop_first().push(x));
        lemma_enc_recs_snoc(reg, rs.drop_first(), x, d);
        assert(enc_recs(reg, rp, d) == nl(d) + enc_rec(reg, rp[0], d) + seq![44u8] + enc_recs(
            reg,
            rp.drop_first(),
            d,
        ));
        assert(enc_recs(reg, rs, d) == nl(d) + enc_rec(reg, rs[0], d) + seq![44u8] + enc_recs(
            reg,
            rs.drop_first(),
            d,
        ));
        assert(enc_recs(reg, rp, d) =~= enc_recs(reg, rs, d) + nl(d) + enc_rec(reg, x, d) + seq![
            44u8,
        ]);
    }
}

proof fn lemma_enc_nodes_snoc(reg: Seq<TypeEntryModel>, ns: Seq<SnapshotNodeModel>, x: SnapshotNodeModel)
    ensures
        enc_nodes(reg, ns.push(x)) == enc_nodes(reg, ns) + nl(2) + enc_node(reg, x, 2) + seq![
            44u8,
        ],
    decreases ns.len(),
{
    let np = ns.push(x);
    if ns.len() == 0 {
        assert(np[0] == x);
        assert(np.drop_first() =~= Seq::<SnapshotNodeModel>::empty());
        assert(enc_nodes(reg, np) =~= enc_nodes(reg, ns) + nl(2) + enc_node(reg, x, 2) + seq![
            44u8,
        ]);
    } else {
        assert(np[0] == ns[0]);
        assert(np.drop_first() =~= ns.drop_first().push(x));
        lemma_enc_nodes_snoc(reg, ns.drop_first(), x);
        assert(enc_nodes(reg, np) == nl(2) + enc_node(reg, np[0], 2) + seq![44u8] + enc_nodes(
            reg,
            np.drop_first(),
        ));
        assert(enc_nodes(reg, ns) == nl(2) + enc_node(reg, ns[0], 2) + seq![44u8] + enc_nodes(
            reg,
            ns.drop_first(),
        ));
        assert(enc_nodes(reg, np) =~= enc_nodes(reg, ns) + nl(2) + enc_node(reg, x, 2) + seq![
            44u8,
        ]);
    }
}

fn push_nl(out: &mut Vec<u8>, d: usize)
    requires
        d <= 8,
    ensures
        final(out)@ == old(out)@ + nl(d as nat),
{
    out.push(10);
    let mut k: usize = 0;
    while k < 2 * d
        invariant
            d <= 8,
            k <= 2 * d,
            out@ == old(out)@ + seq![10u8] + Seq::new(k as nat, |i: int| 32u8),
        decreases 2 * d - k,
    {
        out.push(32);
        proof {
            assert(out@ =~= old(out)@ + seq![10u8] + Seq::new((k + 1) as nat, |i: int| 32u8));
        }
        k = k + 1;
    }
    proof {
        assert(out@ =~= old(out)@ + nl(d as nat));
    }
}

fn push_kw_name(out: &mut Vec<u8>)
    ensures
        final(out)@ == old(out)@ + lit_name(),
{
    out.push(110);
    out.push(97);
    out.push(109);
    out.push(101);
    proof {
        assert(out@ =~= old(out)@ + lit_name());
    }
}

fn push_kw_scene(out: &mut Vec<u8>)
    ensures
        final(out)@ == old(out)@ + lit_scene(),
{
    out.push(115);
    out.push(99);
    out.push(101);
    out.push(110);
    out.push(101);
    proof {
        assert(out@ =~= old(out)@ + lit_scene());
    }
}

fn push_kw_entity(out: &mut Vec<u8>)
    ensures
        final(out)@ == old(out)@ + lit_entity(),
{
    out.push(101);
    out.push(110);
    out.push(116);
    out.push(105);
    out.push(116);
    out.push(121);
    proof {
        assert(out@ =~= old(out)@ + lit_entity());
    }
}

fn push_kw_records(out: &mut Vec<u8>)
    ensures
        final(out)@ == old(out)@ + lit_records(),
{
    out.push(114);
    out.push(101);
    out.push(99);
    out.push(111);
    out.push(114);
    out.push(100);
    out.push(115);
    proof {
        assert(out@ =~= old(out)@ + lit_records());
    }
}

fn push_kw_type(out: &mut Vec<u8>)
    ensures
        final(out)@ == old(out)@ + lit_type(),
{
    out.push(116);
    out.push(121);
    out.push(112);
    out.push(101);
    proof {
        assert(out@ =~= old(out)@ + lit_type());
    }
}

fn push_bool(out: &mut Vec<u8>, b: bool)
    ensures
        final(out)@ == old(out)@ + if b {
            lit_true()
        } else {
            lit_false()
        },
{
    if b {
        out.push(116);
        out.push(114);
        out.push(117);
        out.push(101);
        proof {
            assert(out@ =~= old(out)@ + lit_true());
        }
    } else {
        out.push(102);
        out.push(97);
        out.push(108);
        out.push(115);
        out.push(101);
        proof {
            assert(out@ =~= old(out)@ + lit_false());
        }
    }
}

fn push_u64(out: &mut Vec<u8>, n: u64)
    ensures
        final(out)@ == old(out)@ + enc_u64(n),
    decreases n,
{
    if n < 10 {
        out.push((n as u8) + 48);
        proof {
            assert((n as u8) + 48 == (48 + n as nat) as u8);
            assert(out@ =~= old(out)@ + enc_u64(n));
        }
    } else {
        push_u64(out, n / 10);
        out.push(((n % 10) as u8) + 48);
        proof {
            assert(((n % 10) as u8) + 48 == (48 + (n as nat) % 10) as u8);
            assert(out@ =~= old(out)@ + enc_u64(n));
        }
    }
}

fn push_i64(out: &mut Vec<u8>, n: i64)
    ensures
        final(out)@ == old(out)@ + enc_i64(n),
{
    if n >= 0 {
        proof {
            assert(n as u64 as nat == n as nat);
        }
        push_u64(out, n as u64);
    } else {
        out.push(45);
        let m: u64 = (-(n as i128)) as u64;
        proof {
            assert(m as nat == (-(n as int)) as nat);
        }
        push_u64(out, m);
        proof {
            assert(out@ =~= old(out)@ + enc_i64(n));
        }
    }
}

fn push_quoted(out: &mut Vec<u8>, s: &Vec<u8>)
    ensures
        final(out)@ == old(out)@ + enc_str(s@),
{
    out.push(34);
    let mut i: usize = 0;
    while i < s.len()
        invariant
            i <= s.len(),
            out@ == old(out)@ + seq![34u8] + esc(s@.take(i as int)),
        decreases s.len() - i,
    {
        let b = s[i];
        if b == 34 || b == 92 {
            out.push(92);
            out.push(b);
        } else {
            out.push(b);
        }
        proof {
            lemma_esc_snoc(s@.take(i as int), s@[i as int]);
            assert(s@.take(i + 1 as int) =~= s@.take(i as int).push(s@[i as int]));
            assert(out@ =~= old(out)@ + seq![34u8] + esc(s@.take(i + 1 as int)));
        }
        i = i + 1;
    }
    out.push(34);
    proof {
        assert(s@.take(s@.len() as int) =~= s@);
        assert(out@ =~= old(out)@ + enc_str(s@));
    }
}

fn ser_val(out: &mut Vec<u8>, v: &FieldValue)
    ensures
        final(out)@ == old(out)@ + enc_val(v@),
{
    match v {
        FieldValue::Bool(b) => {
            push_bool(out, *b);
        },
        FieldValue::Int(n) => {
            push_i64(out, *n);
        },
        FieldValue::Str(s) => {
            push_quoted(out, s);
        },
        FieldValue::Refs(rs) => {
            out.push(91);
            let mut i: usize = 0;
            while i < rs.len()
                invariant
                    i <= rs.len(),
                    out@ == old(out)@ + seq![91u8] + enc_refs(rs@.take(i as int)),
                decreases rs.len() - i,
            {
                push_u64(out, rs[i]);
                out.push(44);
                proof {
                    lemma_enc_refs_snoc(rs@.take(i as int), rs@[i as int]);
                    assert(rs@.take(i + 1 as int) =~= rs@.take(i as int).push(rs@[i as int]));
                    assert(out@ =~= old(out)@ + seq![91u8] + enc_refs(rs@.take(i + 1 as int)));
                }
                i = i + 1;
            }
            out.push(93);
            proof {
                assert(rs@.take(rs@.len() as int) =~= rs@);
                assert(out@ =~= old(out)@ + enc_val(v@));
            }
        },
    }
}

fn ser_fields(out: &mut Vec<u8>, decls: &Vec<FieldDecl>, vals: &Vec<FieldValue>, d: usize)
    requires
        d <= 8,
        decls@.len() == vals@.len(),
    ensures
        final(out)@ == old(out)@ + enc_fields(
            decls@.map_values(|x: FieldDecl| x@),
            vals@.map_values(|x: FieldValue| x@),
            d as nat,
        ),
{
    let ghost dm = decls@.map_values(|x: FieldDecl| x@);
    let ghost vm = vals@.map_values(|x: FieldValue| x@);
    let mut i: usize = 0;
    proof {
        assert(enc_fields(dm.take(0), vm.take(0), d as nat) =~= Seq::<u8>::empty());
        assert(out@ =~= out@ + enc_fields(dm.take(0), vm.take(0), d as nat));
    }
    while i < vals.len()
        invariant
            i <= vals.len(),
            d <= 8,
            decls@.len() == vals@.len(),
            dm == decls@.map_values(|x: FieldDecl| x@),
            vm == vals@.map_values(|x: FieldValue| x@),
            out@ == old(out)@ + enc_fields(dm.take(i as int), vm.take(i as int), d as nat),
        decreases vals.len() - i,
    {
        push_nl(out, d);
        push_quoted(out, &decls[i].name);
        out.push(58);
        out.push(32);
        ser_val(out, &vals[i]);
        out.push(44);
        proof {
            lemma_enc_fields_snoc(
                dm.take(i as int),
                vm.take(i as int),
                dm[i as int],
                vm[i as int],
                d as nat,
            );
            assert(dm.take(i + 1 as int) =~= dm.take(i as int).push(dm[i as int]));
            assert(vm.take(i + 1 as int) =~= vm.take(i as int).push(vm[i as int]));
            assert(dm[i as int].name == decls@[i as int].name@);
            assert(vm[i as int] == vals@[i as int]@);
            assert(out@ =~= old(out)@ + enc_fields(
                dm.take(i + 1 as int),
                vm.take(i + 1 as int),
                d as nat,
            ));
        }
        i = i + 1;
    }
    proof {
        assert(dm.take(dm.len() as int) =~= dm);
        assert(vm.take(vm.len() as int) =~= vm);
    }
}

fn ser_record(out: &mut Vec<u8>, reg: &TypeRegistry, rec: &Record, d: usize)
    requires
        d <= 6,
        record_ok(reg@, rec@),
    ensures
        final(out)@ == old(out)@ + enc_rec(reg@, rec@, d as nat),
{
    out.push(40);
    push_nl(out, d + 1);
    push_kw_type(out);
    out.push(58);
    out.push(32);
    push_quoted(out, &rec.ty);
    out.push(44);
    match reg.resolve(&rec.ty) {
        Some(ei) => {
            proof {
                assert(reg@[ei as int].fields.len() == rec@.values.len());
                assert(reg@[ei as int].fields == reg.types@[ei as int]@.fields);
            }
            ser_fields(out, &reg.types[ei].fields, &rec.values, d + 1);
            push_nl(out, d);
            out.push(41);
            proof {
                assert(out@ =~= old(out)@ + enc_rec(reg@, rec@, d as nat));
            }
        },
        None => {
            proof {
                assert(false);
            }
            unreached()
        },
    }
}

#[verifier::rlimit(60)]
fn ser_node(out: &mut Vec<u8>, reg: &TypeRegistry, n: &SnapshotNode, d: usize)
    requires
        d <= 4,
        node_ok(reg@, n@),
    ensures
        final(out)@ == old(out)@ + enc_node(reg@, n@, d as nat),
{
    let ghost rm = n.records@.map_values(|x: Record| x@);
    out.push(40);
    push_nl(out, d + 1);
    push_kw_entity(out);
    out.push(58);
    out.push(32);
    push_u64(out, n.id);
    out.push(44);
    push_nl(out, d + 1);
    push_kw_records(out);
    out.push(58);
    out.push(32);
    out.push(91);
    let ghost base = out@;
    let mut j: usize = 0;
    proof {
        assert(enc_recs(reg@, rm.take(0), (d + 2) as nat) =~= Seq::<u8>::empty());
        assert(out@ =~= base + enc_recs(reg@, rm.take(0), (d + 2) as nat));
    }
    while j < n.records.len()
        invariant
            j <= n.records.len(),
            d <= 4,
            node_ok(reg@, n@),
            rm == n.records@.map_values(|x: Record| x@),
            out@ == base + enc_recs(reg@, rm.take(j as int), (d + 2) as nat),
        decreases n.records.len() - j,
    {
        proof {
            assert(n@.records[j as int] == n.records@[j as int]@);
            assert(record_ok(reg@, n.records@[j as int]@));
        }
        push_nl(out, d + 2);
        ser_record(out, reg, &n.records[j], d + 2);
        out.push(44);
        proof {
            lemma_enc_recs_snoc(reg@, rm.take(j as int), rm[j as int], (d + 2) as nat);
            assert(rm.take(j + 1 as int) =~= rm.take(j as int).push(rm[j as int]));
            assert(out@ =~= base + enc_recs(reg@, rm.take(j + 1 as int), (d + 2) as nat));
        }
        j = j + 1;
    }
    proof {
        assert(rm.take(rm.len() as int) =~= rm);
    }
    push_nl(out, d + 1);
    out.push(93);
    out.push(44);
    push_nl(out, d);
    out.push(41);
    proof {
        assert(out@ =~= old(out)@ + enc_node(reg@, n@, d as nat));
    }
}

/// The value `v` has the declared kind `k`.
pub fn check_value(v: &FieldValue, k: FieldKind) -> (r: bool)
    ensures
        r == value_matches(v@, k),
{
    match v {
        FieldValue::Bool(_) => k == FieldKind::Bool,
        FieldValue::Int(_) => k == FieldKind::Int,
        FieldValue::Str(_) => k == FieldKind::Str,
        FieldValue::Refs(_) => k == FieldKind::Refs,
    }
}

/// The record's type is registered and its values match the declared shape.
pub fn check_record(reg: &TypeRegistry, rec: &Record) -> (r: bool)
    ensures
        r == record_ok(reg@, rec@),
{
    match reg.resolve(&rec.ty) {
        None => false,
        Some(ei) => {
            if reg.types[ei].fields.len() != rec.values.len() {
                false
            } else {
                let mut j: usize = 0;
                while j < rec.values.len()
                    invariant
                        j <= rec.values.len(),
                        ei < reg.types@.len(),
                        resolve_spec(reg@, rec@.ty) == Some(ei as int),
                        reg.types@[ei as int].fields@.len() == rec.values@.len(),
                        forall|t: int|
                            0 <= t < j ==> value_matches(
                                #[trigger] rec@.values[t],
                                reg@[ei as int].fields[t].kind,
                            ),
                    decreases rec.values.len() - j,
                {
                    if !check_value(&rec.values[j], reg.types[ei].fields[j].kind) {
                        proof {
                            assert(rec@.values[j as int] == rec.values@[j as int]@);
                            assert(reg@[ei as int].fields[j as int].kind == reg.types@[ei as int]@.fields[j as int].kind);
                        }
                        return false;
                    }
                    j = j + 1;
                }
                true
            }
        },
    }
}

/// The error the write path reports: the type name of a record that cannot
/// be encoded, because it is unregistered or does not match its declared
/// field shape.
#[derive(Clone, PartialEq, Debug)]
pub struct EncodeError {
    pub ty: Vec<u8>,
}

/// Serializes a prefab to its document under the registry.
///
/// Succeeds exactly when every record of the snapshot is encodable: a single
/// record of an unregistered type, or one that does not match its registered
/// field shape, fails the whole operation, and no partial document is
/// produced.  On success the output is exactly the fixed pretty layout of
/// `enc_prefab`, so equal prefabs give byte-identical documents.
pub fn serialize(p: &Prefab, reg: &TypeRegistry) -> (r: Result<Vec<u8>, EncodeError>)
    ensures
        r is Ok <==> prefab_ok(reg@, p@),
        r matches Ok(out) ==> out@ == enc_prefab(reg@, p@),
        r matches Err(e) ==> exists|i: int, j: int|
            0 <= i < p@.scene.len() && 0 <= j < p@.scene[i].records.len() && !record_ok(
                reg@,
                #[trigger] p@.scene[i].records[j],
            ) && p@.scene[i].records[j].ty == e.ty@,
{
    let ghost sm = p.scene.nodes@.map_values(|x: SnapshotNode| x@);
    let mut i: usize = 0;
    while i < p.scene.nodes.len()
        invariant
            i <= p.scene.nodes.len(),
            sm == p.scene.nodes@.map_values(|x: SnapshotNode| x@),
            forall|t: int| 0 <= t < i ==> node_ok(reg@, #[trigger] sm[t]),
        decreases p.scene.nodes.len() - i,
    {
        let nd = &p.scene.nodes[i];
        let mut j: usize = 0;
        while j < nd.records.len()
            invariant
                j <= nd.records.len(),
                nd == &p.scene.nodes[i as int],
                i < p.scene.nodes.len(),
                sm == p.scene.nodes@.map_values(|x: SnapshotNode| x@),
                forall|t: int| 0 <= t < j ==> record_ok(reg@, #[trigger] sm[i as int].records[t]),
            decreases nd.records.len() - j,
        {
            if !check_record(reg, &nd.records[j]) {
                proof {
                    assert(sm[i as int].records[j as int] == nd.records@[j as int]@);
                    assert(p@.scene == sm);
                    assert(!record_ok(reg@, p@.scene[i as int].records[j as int]));
                }
                return Err(EncodeError { ty: crate::extract::clone_plain(&nd.records[j].ty) });
            }
            proof {
                assert(sm[i as int].records[j as int] == nd.records@[j as int]@);
            }
            j = j + 1;
        }
        proof {
            assert(node_ok(reg@, sm[i as int]));
        }
        i = i + 1;
    }
    proof {
        assert(p@.scene == sm);
        assert(prefab_ok(reg@, p@));
    }
    let mut out: Vec<u8> = Vec::new();
    out.push(40);
    push_nl(&mut out, 1);
    push_kw_name(&mut out);
    out.push(58);
    out.push(32);
    push_quoted(&mut out, &p.name);
    out.push(44);
    push_nl(&mut out, 1);
    push_kw_scene(&mut out);
    out.push(58);
    out.push(32);
    out.push(91);
    let ghost base = out@;
    let mut k: usize = 0;
    proof {
        assert(enc_nodes(reg@, sm.take(0)) =~= Seq::<u8>::empty());
        assert(out@ =~= base + enc_nodes(reg@, sm.take(0)));
    }
    while k < p.scene.nodes.len()
        invariant
            k <= p.scene.nodes.len(),
            sm == p.scene.nodes@.map_values(|x: SnapshotNode| x@),
            forall|t: int| 0 <= t < sm.len() ==> node_ok(reg@, #[trigger] sm[t]),
            out@ == base + enc_nodes(reg@, sm.take(k as int)),
        decreases p.scene.nodes.len() - k,
    {
        proof {
            assert(sm[k as int] == p.scene.nodes@[k as int]@);
        }
        push_nl(&mut out, 2);
        ser_node(&mut out, reg, &p.scene.nodes[k], 2);
        out.push(44);
        proof {
            lemma_enc_nodes_snoc(reg@, sm.take(k as int), sm[k as int]);
            assert(sm.take(k + 1 as int) =~= sm.take(k as int).push(sm[k as int]));
            assert(out@ =~= base + enc_nodes(reg@, sm.take(k + 1 as int)));
        }
        k = k + 1;
    }
    proof {
        assert(sm.take(sm.len() as int) =~= sm);
    }
    push_nl(&mut out, 1);
    out.push(93);
    out.push(44);
    push_nl(&mut out, 0);
    out.push(41);
    proof {
        assert(out@ =~= enc_prefab(reg@, p@));
    }
    Ok(out)
}

} // verus!
