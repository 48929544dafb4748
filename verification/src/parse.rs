//! Prefab codec, read path: the specification parser that fixes what every
//! document means — including the exact position of the first failure — and
//! the verified deserializer that implements it.
//!
//! Decoding is sequence-based, not name-based: the two top-level fields are
//! read as `name` then `scene` in that fixed order, and the fields of every
//! record are read in the order the registry declares them; a document with
//! fields missing, renamed or out of order fails.  Whitespace between tokens
//! is insignificant.

use vstd::prelude::*;
use crate::data::{
    resolve_spec, FieldDecl, FieldDeclModel, FieldKind, FieldValue, Prefab, PrefabModel, Record,
    RecordModel, Snapshot, SnapshotNode, SnapshotNodeModel, TypeEntryModel, TypeRegistry,
    ValueModel,
};
use crate::enc::{is_digit, is_ws, lit_entity, lit_false, lit_name, lit_records, lit_scene,
    lit_true, lit_type};

verus! {

/// What kind of failure a decode reports.
#[derive(Clone, Copy, PartialEq, Eq, Structural, Debug)]
pub enum ErrKind {
    /// Malformed text: an expected token is absent at the position.
    Syntax,
    /// A record names a type identifier absent from the registry.
    UnknownType,
    /// The document does not match the declared field schema: a field name
    /// is missing, renamed or out of order.
    Schema,
}

/// Outcome of one specification parser: the parsed value and the position
/// after it, or the kind and position of the first failure.
pub ghost enum PRes<T> {
    Parsed(T, int),
    Failed(ErrKind, int),
}

/// First position at or after `i` holding no whitespace.
pub open spec fn skip_ws(s: Seq<u8>, i: int) -> int
    decreases s.len() - i,
{
    if 0 <= i < s.len() && is_ws(s[i]) {
        skip_ws(s, i + 1)
    } else {
        i
    }
}

/// A fixed token, after optional whitespace.
pub open spec fn p_lit(s: Seq<u8>, i: int, lit: Seq<u8>) -> PRes<()> {
    let j = skip_ws(s, i);
    if j + lit.len() <= s.len() && s.subrange(j, j + lit.len() as int) == lit {
        PRes::Parsed((), j + lit.len() as int)
    } else {
        PRes::Failed(ErrKind::Syntax, j)
    }
}

/// First position at or after `i` holding no decimal digit.
pub open spec fn digits_end(s: Seq<u8>, i: int) -> int
    decreases s.len() - i,
{
    if 0 <= i < s.len() && is_digit(s[i]) {
        digits_end(s, i + 1)
    } else {
        i
    }
}

/// The number a run of decimal digits denotes.
pub open spec fn dval(ds: Seq<u8>) -> nat
    decreases ds.len(),
{
    if ds.len() == 0 {
        0
    } else {
        dval(ds.drop_last()) * 10 + (ds.last() - 48) as nat
    }
}

/// An unsigned decimal number, after optional whitespace.  The digit run is
/// taken greedily; a missing digit or a value above `u64::MAX` fails.
pub open spec fn p_u64(s: Seq<u8>, i: int) -> PRes<u64> {
    let j = skip_ws(s, i);
    let k = digits_end(s, j);
    if k == j {
        PRes::Failed(ErrKind::Syntax, j)
    } else if dval(s.subrange(j, k)) <= u64::MAX {
        PRes::Parsed(dval(s.subrange(j, k)) as u64, k)
    } else {
        PRes::Failed(ErrKind::Syntax, j)
    }
}

/// A signed decimal number, after optional whitespace, with an optional
/// leading minus sign.  A value outside the signed 64-bit range fails.
pub open spec fn p_i64(s: Seq<u8>, i: int) -> PRes<i64> {
    let j = skip_ws(s, i);
    if j < s.len() && s[j] == 45 {
        let k = digits_end(s, j + 1);
        if k == j + 1 {
            PRes::Failed(ErrKind::Syntax, j + 1)
        } else if dval(s.subrange(j + 1, k)) <= i64::MAX as nat + 1 {
            PRes::Parsed((-(dval(s.subrange(j + 1, k)) as int)) as i64, k)
        } else {
            PRes::Failed(ErrKind::Syntax, j + 1)
        }
    } else {
        let k = digits_end(s, j);
        if k == j {
            PRes::Failed(ErrKind::Syntax, j)
        } else if dval(s.subrange(j, k)) <= i64::MAX as nat {
            PRes::Parsed(dval(s.subrange(j, k)) as i64, k)
        } else {
            PRes::Failed(ErrKind::Syntax, j)
        }
    }
}

/// A boolean literal, after optional whitespace.
pub open spec fn p_bool(s: Seq<u8>, i: int) -> PRes<bool> {
    match p_lit(s, i, lit_true()) {
        PRes::Parsed(_, n) => PRes::Parsed(true, n),
        PRes::Failed(_, _) => match p_lit(s, i, lit_false()) {
            PRes::Parsed(_, n) => PRes::Parsed(false, n),
            PRes::Failed(k, pos) => PRes::Failed(k, pos),
        },
    }
}

/// The body of a quoted string, after the opening quote: bytes up to the
/// closing quote, with backslash escapes taken literally.
pub open spec fn p_str_body(s: Seq<u8>, i: int, acc: Seq<u8>) -> PRes<Seq<u8>>
    decreases s.len() - i,
{
    if !(0 <= i < s.len()) {
        PRes::Failed(ErrKind::Syntax, i)
    } else if s[i] == 34 {
        PRes::Parsed(acc, i + 1)
    } else if s[i] == 92 {
        if i + 1 < s.len() {
            p_str_body(s, i + 2, acc.push(s[i + 1]))
        } else {
            PRes::Failed(ErrKind::Syntax, i + 1)
        }
    } else {
        p_str_body(s, i + 1, acc.push(s[i]))
    }
}

/// A quoted string, after optional whitespace.
pub open spec fn p_str(s: Seq<u8>, i: int) -> PRes<Seq<u8>> {
    let j = skip_ws(s, i);
    if j < s.len() && s[j] == 34 {
        p_str_body(s, j + 1, Seq::empty())
    } else {
        PRes::Failed(ErrKind::Syntax, j)
    }
}

/// The items of a reference list, after the opening bracket: numbers each
/// followed by a comma, up to the closing bracket.
pub open spec fn p_ref_items(s: Seq<u8>, i: int, acc: Seq<u64>) -> PRes<Seq<u64>>
    decreases s.len() - i,
{
    let j = skip_ws(s, i);
    if j < s.len() && s[j] == 93 {
        PRes::Parsed(acc, j + 1)
    } else {
        match p_u64(s, j) {
            PRes::Failed(k, pos) => PRes::Failed(k, pos),
            PRes::Parsed(v, n) => match p_lit(s, n, seq![44u8]) {
                PRes::Failed(k, pos) => PRes::Failed(k, pos),
                PRes::Parsed(_, n2) => if i < n2 <= s.len() {
                    p_ref_items(s, n2, acc.push(v))
                } else {
                    PRes::Failed(ErrKind::Syntax, n2)
                },
            },
        }
    }
}

/// One field value of the declared kind.
pub open spec fn p_val(s: Seq<u8>, i: int, k: FieldKind) -> PRes<ValueModel> {
    match k {
        FieldKind::Bool => match p_bool(s, i) {
            PRes::Parsed(b, n) => PRes::Parsed(ValueModel::Bool(b), n),
            PRes::Failed(e, pos) => PRes::Failed(e, pos),
        },
        FieldKind::Int => match p_i64(s, i) {
            PRes::Parsed(v, n) => PRes::Parsed(ValueModel::Int(v), n),
            PRes::Failed(e, pos) => PRes::Failed(e, pos),
        },
        FieldKind::Str => match p_str(s, i) {
            PRes::Parsed(q, n) => PRes::Parsed(ValueModel::Str(q), n),
            PRes::Failed(e, pos) => PRes::Failed(e, pos),
        },
        FieldKind::Refs => match p_lit(s, i, seq![91u8]) {
            PRes::Failed(e, pos) => PRes::Failed(e, pos),
            PRes::Parsed(_, n) => match p_ref_items(s, n, Seq::empty()) {
                PRes::Parsed(rs, n2) => PRes::Parsed(ValueModel::Refs(rs), n2),
                PRes::Failed(e, pos) => PRes::Failed(e, pos),
            },
        },
    }
}

/// The declared fields of a record, from declaration `fi` on: each is a
/// quoted field name — which must be the declared one, in declaration
/// order — a colon, a value of the declared kind, and a comma.
pub open spec fn p_fields(
    s: Seq<u8>,
    i: int,
    decls: Seq<FieldDeclModel>,
    fi: int,
    acc: Seq<ValueModel>,
) -> PRes<Seq<ValueModel>>
    decreases decls.len() - fi,
{
    if !(0 <= fi < decls.len()) {
        PRes::Parsed(acc, i)
    } else {
        match p_str(s, i) {
            PRes::Failed(k, pos) => PRes::Failed(k, pos),
            PRes::Parsed(nm, n) => if nm != decls[fi].name {
                PRes::Failed(ErrKind::Schema, skip_ws(s, i))
            } else {
                match p_lit(s, n, seq![58u8]) {
                    PRes::Failed(k, pos) => PRes::Failed(k, pos),
                    PRes::Parsed(_, n2) => match p_val(s, n2, decls[fi].kind) {
                        PRes::Failed(k, pos) => PRes::Failed(k, pos),
                        PRes::Parsed(v, n3) => match p_lit(s, n3, seq![44u8]) {
                            PRes::Failed(k, pos) => PRes::Failed(k, pos),
                            PRes::Parsed(_, n4) => p_fields(s, n4, decls, fi + 1, acc.push(v)),
                        },
                    },
                }
            },
        }
    }
}

/// One record: its quoted type name under the fixed key `type`, resolved in
/// the registry — an unregistered identifier fails the decode — then its
/// fields, driven by the declared shape.
pub open spec fn p_rec(s: Seq<u8>, i: int, reg: Seq<TypeEntryModel>) -> PRes<RecordModel> {
    match p_lit(s, i, seq![40u8]) {
        PRes::Failed(k, pos) => PRes::Failed(k, pos),
        PRes::Parsed(_, n0) => match p_lit(s, n0, lit_type()) {
            PRes::Failed(k, pos) => PRes::Failed(k, pos),
            PRes::Parsed(_, n1) => match p_lit(s, n1, seq![58u8]) {
                PRes::Failed(k, pos) => PRes::Failed(k, pos),
                PRes::Parsed(_, n2) => match p_str(s, n2) {
                    PRes::Failed(k, pos) => PRes::Failed(k, pos),
                    PRes::Parsed(ty, n3) => match resolve_spec(reg, ty) {
                        None => PRes::Failed(ErrKind::UnknownType, skip_ws(s, n2)),
                        Some(e) => match p_lit(s, n3, seq![44u8]) {
                            PRes::Failed(k, pos) => PRes::Failed(k, pos),
                            PRes::Parsed(_, n4) => match p_fields(
                                s,
                                n4,
                                reg[e].fields,
                                0,
                                Seq::empty(),
                            ) {
                                PRes::Failed(k, pos) => PRes::Failed(k, pos),
                                PRes::Parsed(vs, n5) => match p_lit(s, n5, seq![41u8]) {
                                    PRes::Failed(k, pos) => PRes::Failed(k, pos),
                                    PRes::Parsed(_, n6) => PRes::Parsed(
                                        RecordModel { ty, values: vs },
                                        n6,
                                    ),
                                },
                            },
                        },
                    },
                },
            },
        },
    }
}

/// The items of a record list, after the opening bracket: records each
/// followed by a comma, up to the closing bracket.
pub open spec fn p_rec_items(s: Seq<u8>, i: int, reg: Seq<TypeEntryModel>, acc: Seq<RecordModel>) -> PRes<
    Seq<RecordModel>,
>
    decreases s.len() - i,
{
    let j = skip_ws(s, i);
    if j < s.len() && s[j] == 93 {
        PRes::Parsed(acc, j + 1)
    } else {
        match p_rec(s, j, reg) {
            PRes::Failed(k, pos) => PRes::Failed(k, pos),
            PRes::Parsed(r, n) => match p_lit(s, n, seq![44u8]) {
                PRes::Failed(k, pos) => PRes::Failed(k, pos),
                PRes::Parsed(_, n2) => if i < n2 <= s.len() {
                    p_rec_items(s, n2, reg, acc.push(r))
                } else {
                    PRes::Failed(ErrKind::Syntax, n2)
                },
            },
        }
    }
}

/// One snapshot entry: its placeholder id under the fixed key `entity`,
/// then its record list under the fixed key `records`.
pub open spec fn p_node(s: Seq<u8>, i: int, reg: Seq<TypeEntryModel>) -> PRes<SnapshotNodeModel> {
    match p_lit(s, i, seq![40u8]) {
        PRes::Failed(k, pos) => PRes::Failed(k, pos),
        PRes::Parsed(_, n0) => match p_lit(s, n0, lit_entity()) {
            PRes::Failed(k, pos) => PRes::Failed(k, pos),
            PRes::Parsed(_, n1) => match p_lit(s, n1, seq![58u8]) {
                PRes::Failed(k, pos) => PRes::Failed(k, pos),
                PRes::Parsed(_, n2) => match p_u64(s, n2) {
                    PRes::Failed(k, pos) => PRes::Failed(k, pos),
                    PRes::Parsed(id, n3) => match p_lit(s, n3, seq![44u8]) {
                        PRes::Failed(k, pos) => PRes::Failed(k, pos),
                        PRes::Parsed(_, n4) => match p_lit(s, n4, lit_records()) {
                            PRes::Failed(k, pos) => PRes::Failed(k, pos),
                            PRes::Parsed(_, n5) => match p_lit(s, n5, seq![58u8]) {
                                PRes::Failed(k, pos) => PRes::Failed(k, pos),
                                PRes::Parsed(_, n6) => match p_lit(s, n6, seq![91u8]) {
                                    PRes::Failed(k, pos) => PRes::Failed(k, pos),
                                    PRes::Parsed(_, n7) => match p_rec_items(
                                        s,
                                        n7,
                                        reg,
                                        Seq::empty(),
                                    ) {
                                        PRes::Failed(k, pos) => PRes::Failed(k, pos),
                                        PRes::Parsed(rs, n8) => match p_lit(s, n8, seq![44u8]) {
                                            PRes::Failed(k, pos) => PRes::Failed(k, pos),
                                            PRes::Parsed(_, n9) => match p_lit(s, n9, seq![41u8]) {
                                                PRes::Failed(k, pos) => PRes::Failed(k, pos),
                                                PRes::Parsed(_, n10) => PRes::Parsed(
                                                    SnapshotNodeModel { id, records: rs },
                                                    n10,
                                                ),
                                            },
                                        },
                                    },
                                },
                            },
                        },
                    },
                },
            },
        },
    }
}

/// The items of the entry list, after the opening bracket: entries each
/// followed by a comma, up to the closing bracket.
pub open spec fn p_node_items(
    s: Seq<u8>,
    i: int,
    reg: Seq<TypeEntryModel>,
    acc: Seq<SnapshotNodeModel>,
) -> PRes<Seq<SnapshotNodeModel>>
    decreases s.len() - i,
{
    let j = skip_ws(s, i);
    if j < s.len() && s[j] == 93 {
        PRes::Parsed(acc, j + 1)
    } else {
        match p_node(s, j, reg) {
            PRes::Failed(k, pos) => PRes::Failed(k, pos),
            PRes::Parsed(nd, n) => match p_lit(s, n, seq![44u8]) {
                PRes::Failed(k, pos) => PRes::Failed(k, pos),
                PRes::Parsed(_, n2) => if i < n2 <= s.len() {
                    p_node_items(s, n2, reg, acc.push(nd))
                } else {
                    PRes::Failed(ErrKind::Syntax, n2)
                },
            },
        }
    }
}

/// The whole document: a struct of exactly two fields, `name` then `scene`,
/// in that fixed order, with nothing but whitespace after it.
pub open spec fn p_prefab(s: Seq<u8>, reg: Seq<TypeEntryModel>) -> PRes<PrefabModel> {
    match p_lit(s, 0, seq![40u8]) {
        PRes::Failed(k, pos) => PRes::Failed(k, pos),
        PRes::Parsed(_, n0) => match p_lit(s, n0, lit_name()) {
            PRes::Failed(k, pos) => PRes::Failed(k, pos),
            PRes::Parsed(_, n1) => match p_lit(s, n1, seq![58u8]) {
                PRes::Failed(k, pos) => PRes::Failed(k, pos),
                PRes::Parsed(_, n2) => match p_str(s, n2) {
                    PRes::Failed(k, pos) => PRes::Failed(k, pos),
                    PRes::Parsed(nm, n3) => match p_lit(s, n3, seq![44u8]) {
                        PRes::Failed(k, pos) => PRes::Failed(k, pos),
                        PRes::Parsed(_, n4) => match p_lit(s, n4, lit_scene()) {
                            PRes::Failed(k, pos) => PRes::Failed(k, pos),
                            PRes::Parsed(_, n5) => match p_lit(s, n5, seq![58u8]) {
                                PRes::Failed(k, pos) => PRes::Failed(k, pos),
                                PRes::Parsed(_, n6) => match p_lit(s, n6, seq![91u8]) {
                                    PRes::Failed(k, pos) => PRes::Failed(k, pos),
                                    PRes::Parsed(_, n7) => match p_node_items(
                                        s,
                                        n7,
                                        reg,
                                        Seq::empty(),
                                    ) {
                                        PRes::Failed(k, pos) => PRes::Failed(k, pos),
                                        PRes::Parsed(sc, n8) => match p_lit(s, n8, seq![44u8]) {
                                            PRes::Failed(k, pos) => PRes::Failed(k, pos),
                                            PRes::Parsed(_, n9) => match p_lit(s, n9, seq![41u8]) {
                                                PRes::Failed(k, pos) => PRes::Failed(k, pos),
                                                PRes::Parsed(_, n10) => {
                                                    let e = skip_ws(s, n10);
                                                    if e == s.len() {
                                                        PRes::Parsed(
                                                            PrefabModel { name: nm, scene: sc },
                                                            e,
                                                        )
                                                    } else {
                                                        PRes::Failed(ErrKind::Syntax, e)
                                                    }
                                                },
                                            },
                                        },
                                    },
                                },
                            },
                        },
                    },
                },
            },
        },
    }
}

/// One-based line number of byte offset `k`.
pub open spec fn line_of(s: Seq<u8>, k: int) -> int
    decreases k,
{
    if k <= 0 {
        1
    } else if 0 < k <= s.len() && s[k - 1] == 10 {
        line_of(s, k - 1) + 1
    } else {
        line_of(s, k - 1)
    }
}

/// One-based column number of byte offset `k`.
pub open spec fn col_of(s: Seq<u8>, k: int) -> int
    decreases k,
{
    if k <= 0 {
        1
    } else if 0 < k <= s.len() && s[k - 1] == 10 {
        1
    } else {
        col_of(s, k - 1) + 1
    }
}

proof fn lemma_skip_ws_bounds(s: Seq<u8>, i: int)
    requires
        0 <= i <= s.len(),
    ensures
        i <= skip_ws(s, i) <= s.len(),
    decreases s.len() - i,
{
    if i < s.len() && is_ws(s[i]) {
        lemma_skip_ws_bounds(s, i + 1);
    }
}

proof fn lemma_digits_end_bounds(s: Seq<u8>, i: int)
    requires
        0 <= i <= s.len(),
    ensures
        i <= digits_end(s, i) <= s.len(),
    decreases s.len() - i,
{
    if i < s.len() && is_digit(s[i]) {
        lemma_digits_end_bounds(s, i + 1);
    }
}

/// A decode failure before its position is turned into line and column.
struct PFail {
    kind: ErrKind,
    at: usize,
}

fn ws_skip(s: &Vec<u8>, i: usize) -> (r: usize)
    requires
        i <= s@.len(),
    ensures
        r as int == skip_ws(s@, i as int),
        i <= r <= s@.len(),
{
    let mut c: usize = i;
    while c < s.len() && (s[c] == 32 || s[c] == 9 || s[c] == 10 || s[c] == 13)
        invariant
            i <= c <= s@.len(),
            skip_ws(s@, i as int) == skip_ws(s@, c as int),
        decreases s@.len() - c,
    {
        c = c + 1;
    }
    c
}

fn lit1(b: u8) -> (v: Vec<u8>)
    ensures
        v@ == seq![b],
{
    let mut v: Vec<u8> = Vec::new();
    v.push(b);
    proof {
        assert(v@ =~= seq![b]);
    }
    v
}

fn kw_name() -> (v: Vec<u8>)
    ensures
        v@ == lit_name(),
{
    let mut v: Vec<u8> = Vec::new();
    v.push(110);
    v.push(97);
    v.push(109);
    v.push(101);
    proof {
        assert(v@ =~= lit_name());
    }
    v
}

fn kw_scene() -> (v: Vec<u8>)
    ensures
        v@ == lit_scene(),
{
    let mut v: Vec<u8> = Vec::new();
    v.push(115);
    v.push(99);
    v.push(101);
    v.push(110);
    v.push(101);
    proof {
        assert(v@ =~= lit_scene());
    }
    v
}

fn kw_entity() -> (v: Vec<u8>)
    ensures
        v@ == lit_entity(),
{
    let mut v: Vec<u8> = Vec::new();
    v.push(101);
    v.push(110);
    v.push(116);
    v.push(105);
    v.push(116);
    v.push(121);
    proof {
        assert(v@ =~= lit_entity());
    }
    v
}

fn kw_records() -> (v: Vec<u8>)
    ensures
        v@ == lit_records(),
{
    let mut v: Vec<u8> = Vec::new();
    v.push(114);
    v.push(101);
    v.push(99);
    v.push(111);
    v.push(114);
    v.push(100);
    v.push(115);
    proof {
        assert(v@ =~= lit_records());
    }
    v
}

fn kw_type() -> (v: Vec<u8>)
    ensures
        v@ == lit_type(),
{
    let mut v: Vec<u8> = Vec::new();
    v.push(116);
    v.push(121);
    v.push(112);
    v.push(101);
    proof {
        assert(v@ =~= lit_type());
    }
    v
}

fn kw_true() -> (v: Vec<u8>)
    ensures
        v@ == lit_true(),
{
    let mut v: Vec<u8> = Vec::new();
    v.push(116);
    v.push(114);
    v.push(117);
    v.push(101);
    proof {
        assert(v@ =~= lit_true());
    }
    v
}

fn kw_false() -> (v: Vec<u8>)
    ensures
        v@ == lit_false(),
{
    let mut v: Vec<u8> = Vec::new();
    v.push(102);
    v.push(97);
    v.push(108);
    v.push(115);
    v.push(101);
    proof {
        assert(v@ =~= lit_false());
    }
    v
}

fn expect_lit(s: &Vec<u8>, i: usize, lit: &Vec<u8>) -> (r: Result<usize, PFail>)
    requires
        i <= s@.len(),
        lit@.len() >= 1,
    ensures
        p_lit(s@, i as int, lit@) matches PRes::Parsed(u, n) ==> r matches Ok(rr) && rr as int
            == n && i < rr <= s@.len(),
        p_lit(s@, i as int, lit@) matches PRes::Failed(k, pos) ==> r matches Err(f) && f.kind
            == k && f.at as int == pos && f.at <= s@.len(),
{
    let j = ws_skip(s, i);
    if s.len() - j >= lit.len() {
        let mut t: usize = 0;
        while t < lit.len()
            invariant
                j + lit@.len() <= s@.len(),
                s@.len() <= usize::MAX,
                t <= lit@.len(),
                j as int == skip_ws(s@, i as int),
                i <= j <= s@.len(),
                forall|q: int| 0 <= q < t ==> s@[j + q] == lit@[q],
            decreases lit@.len() - t,
        {
            if s[j + t] != lit[t] {
                proof {
                    assert(s@.subrange(j as int, j + lit@.len())[t as int] == s@[j + t]);
                    assert(s@.subrange(j as int, j + lit@.len()) != lit@);
                }
                return Err(PFail { kind: ErrKind::Syntax, at: j });
            }
            t = t + 1;
        }
        proof {
            assert(s@.subrange(j as int, j + lit@.len()) =~= lit@);
        }
        Ok(j + lit.len())
    } else {
        proof {
            assert(j + lit@.len() > s@.len());
        }
        Err(PFail { kind: ErrKind::Syntax, at: j })
    }
}

fn scan_digits(s: &Vec<u8>, start: usize, bound: u64) -> (r: (u64, usize, bool))
    requires
        start <= s@.len(),
        bound >= 9,
    ensures
        start <= r.1 <= s@.len(),
        r.1 as int == digits_end(s@, start as int),
        !r.2 ==> r.0 as nat == dval(s@.subrange(start as int, r.1 as int)) && r.0 <= bound,
        r.2 ==> dval(s@.subrange(start as int, r.1 as int)) > bound,
{
    let mut t: usize = start;
    let mut acc: u64 = 0;
    let mut over: bool = false;
    proof {
        assert(s@.subrange(start as int, start as int) =~= Seq::<u8>::empty());
    }
    while t < s.len() && s[t] >= 48 && s[t] <= 57
        invariant
            start <= t <= s@.len(),
            bound >= 9,
            digits_end(s@, start as int) == digits_end(s@, t as int),
            !over ==> acc as nat == dval(s@.subrange(start as int, t as int)) && acc <= bound,
            over ==> dval(s@.subrange(start as int, t as int)) > bound,
        decreases s@.len() - t,
    {
        let d: u64 = (s[t] - 48) as u64;
        let ghost pre = s@.subrange(start as int, t as int);
        proof {
            assert(s@.subrange(start as int, t + 1 as int).drop_last() =~= pre);
            assert(s@.subrange(start as int, t + 1 as int).last() == s@[t as int]);
            assert(dval(s@.subrange(start as int, t + 1 as int)) == dval(pre) * 10 + d);
        }
        if !over {
            let q: u64 = (bound - d) / 10;
            proof {
                vstd::arithmetic::div_mod::lemma_fundamental_div_mod((bound - d) as int, 10);
            }
            if acc > q {
                over = true;
                proof {
                    assert(acc * 10 + d > bound);
                    assert(dval(s@.subrange(start as int, t + 1 as int)) > bound);
                }
            } else {
                proof {
                    assert(acc * 10 + d <= bound);
                }
                acc = acc * 10 + d;
            }
        } else {
            proof {
                assert(dval(s@.subrange(start as int, t + 1 as int)) >= dval(pre));
            }
        }
        t = t + 1;
    }
    proof {
        assert(digits_end(s@, t as int) == t as int);
    }
    (acc, t, over)
}

fn parse_u64(s: &Vec<u8>, i: usize) -> (r: Result<(u64, usize), PFail>)
    requires
        i <= s@.len(),
    ensures
        p_u64(s@, i as int) matches PRes::Parsed(v, n) ==> r matches Ok(p) && p.0 == v && p.1
            as int == n && i < p.1 <= s@.len(),
        p_u64(s@, i as int) matches PRes::Failed(k, pos) ==> r matches Err(f) && f.kind == k
            && f.at as int == pos && f.at <= s@.len(),
{
    let j = ws_skip(s, i);
    let (acc, end, over) = scan_digits(s, j, u64::MAX);
    if end == j {
        Err(PFail { kind: ErrKind::Syntax, at: j })
    } else if over {
        Err(PFail { kind: ErrKind::Syntax, at: j })
    } else {
        Ok((acc, end))
    }
}

fn parse_i64(s: &Vec<u8>, i: usize) -> (r: Result<(i64, usize), PFail>)
    requires
        i <= s@.len(),
    ensures
        p_i64(s@, i as int) matches PRes::Parsed(v, n) ==> r matches Ok(p) && p.0 == v && p.1
            as int == n && i < p.1 <= s@.len(),
        p_i64(s@, i as int) matches PRes::Failed(k, pos) ==> r matches Err(f) && f.kind == k
            && f.at as int == pos && f.at <= s@.len(),
{
    let j = ws_skip(s, i);
    if j < s.len() && s[j] == 45 {
        let bound: u64 = (i64::MAX as u64) + 1;
        let (acc, end, over) = scan_digits(s, j + 1, bound);
        if end == j + 1 {
            Err(PFail { kind: ErrKind::Syntax, at: j + 1 })
        } else if over {
            Err(PFail { kind: ErrKind::Syntax, at: j + 1 })
        } else {
            let v: i64 = if acc == bound {
                i64::MIN
            } else {
                -(acc as i64)
            };
            proof {
                assert(v as int == -(dval(s@.subrange(j + 1 as int, end as int)) as int));
            }
            Ok((v, end))
        }
    } else {
        let (acc, end, over) = scan_digits(s, j, i64::MAX as u64);
        if end == j {
            Err(PFail { kind: ErrKind::Syntax, at: j })
        } else if over {
            Err(PFail { kind: ErrKind::Syntax, at: j })
        } else {
            Ok((acc as i64, end))
        }
    }
}

fn parse_bool(s: &Vec<u8>, i: usize) -> (r: Result<(bool, usize), PFail>)
    requires
        i <= s@.len(),
    ensures
        p_bool(s@, i as int) matches PRes::Parsed(v, n) ==> r matches Ok(p) && p.0 == v && p.1
            as int == n && i < p.1 <= s@.len(),
        p_bool(s@, i as int) matches PRes::Failed(k, pos) ==> r matches Err(f) && f.kind == k
            && f.at as int == pos && f.at <= s@.len(),
{
    let kt = kw_true();
    match expect_lit(s, i, &kt) {
        Ok(n) => Ok((true, n)),
        Err(_) => {
            let kf = kw_false();
            match expect_lit(s, i, &kf) {
                Ok(n) => Ok((false, n)),
                Err(f) => Err(f),
            }
        },
    }
}

#[verifier::loop_isolation(false)]
fn parse_str(s: &Vec<u8>, i: usize) -> (r: Result<(Vec<u8>, usize), PFail>)
    requires
        i <= s@.len(),
    ensures
        p_str(s@, i as int) matches PRes::Parsed(q, n) ==> r matches Ok(p) && p.0@ == q && p.1
            as int == n && i < p.1 <= s@.len(),
        p_str(s@, i as int) matches PRes::Failed(k, pos) ==> r matches Err(f) && f.kind == k
            && f.at as int == pos && f.at <= s@.len(),
{
    let j = ws_skip(s, i);
    if j < s.len() && s[j] == 34 {
        let mut acc: Vec<u8> = Vec::new();
        let mut c: usize = j + 1;
        proof {
            assert(acc@ =~= Seq::<u8>::empty());
        }
        while c < s.len() && s[c] != 34
            invariant
                j + 1 <= c <= s@.len(),
                p_str_body(s@, j + 1 as int, Seq::empty()) == p_str_body(s@, c as int, acc@),
            decreases s@.len() - c,
        {
            if s[c] == 92 {
                if c + 1 < s.len() {
                    acc.push(s[c + 1]);
                    c = c + 2;
                } else {
                    return Err(PFail { kind: ErrKind::Syntax, at: c + 1 });
                }
            } else {
                acc.push(s[c]);
                c = c + 1;
            }
        }
        if c < s.len() {
            Ok((acc, c + 1))
        } else {
            Err(PFail { kind: ErrKind::Syntax, at: c })
        }
    } else {
        Err(PFail { kind: ErrKind::Syntax, at: j })
    }
}

#[verifier::loop_isolation(false)]
fn parse_val(s: &Vec<u8>, i: usize, k: FieldKind) -> (r: Result<(FieldValue, usize), PFail>)
    requires
        i <= s@.len(),
    ensures
        p_val(s@, i as int, k) matches PRes::Parsed(v, n) ==> r matches Ok(p) && p.0@ == v
            && p.1 as int == n && i < p.1 <= s@.len(),
        p_val(s@, i as int, k) matches PRes::Failed(e, pos) ==> r matches Err(f) && f.kind == e
            && f.at as int == pos && f.at <= s@.len(),
{
    match k {
        FieldKind::Bool => match parse_bool(s, i) {
            Ok(p) => Ok((FieldValue::Bool(p.0), p.1)),
            Err(f) => Err(f),
        },
        FieldKind::Int => match parse_i64(s, i) {
            Ok(p) => Ok((FieldValue::Int(p.0), p.1)),
            Err(f) => Err(f),
        },
        FieldKind::Str => match parse_str(s, i) {
            Ok(p) => Ok((FieldValue::Str(p.0), p.1)),
            Err(f) => Err(f),
        },
        FieldKind::Refs => {
            let ob = lit1(91);
            match expect_lit(s, i, &ob) {
                Err(f) => Err(f),
                Ok(n0) => {
                    let mut acc: Vec<u64> = Vec::new();
                    let mut cur: usize = n0;
                    proof {
                        assert(acc@ =~= Seq::<u64>::empty());
                    }
                    loop
                        invariant
                            n0 <= cur <= s@.len(),
                            p_ref_items(s@, n0 as int, Seq::empty()) == p_ref_items(
                                s@,
                                cur as int,
                                acc@,
                            ),
                        decreases s@.len() - cur,
                    {
                        let j2 = ws_skip(s, cur);
                        if j2 < s.len() && s[j2] == 93 {
                            return Ok((FieldValue::Refs(acc), j2 + 1));
                        }
                        match parse_u64(s, j2) {
                            Err(f) => {
                                return Err(f);
                            },
                            Ok((v, n1)) => {
                                let cm = lit1(44);
                                match expect_lit(s, n1, &cm) {
                                    Err(f) => {
                                        return Err(f);
                                    },
                                    Ok(n2) => {
                                        acc.push(v);
                                        cur = n2;
                                    },
                                }
                            },
                        }
                    }
                },
            }
        },
    }
}

#[verifier::loop_isolation(false)]
fn parse_fields(s: &Vec<u8>, i: usize, decls: &Vec<FieldDecl>) -> (r: Result<
    (Vec<FieldValue>, usize),
    PFail,
>)
    requires
        i <= s@.len(),
    ensures
        p_fields(s@, i as int, decls@.map_values(|x: FieldDecl| x@), 0, Seq::empty())
            matches PRes::Parsed(vs, n) ==> r matches Ok(p) && p.0@.map_values(
            |x: FieldValue| x@,
        ) == vs && p.1 as int == n && i <= p.1 <= s@.len(),
        p_fields(s@, i as int, decls@.map_values(|x: FieldDecl| x@), 0, Seq::empty())
            matches PRes::Failed(k, pos) ==> r matches Err(f) && f.kind == k && f.at as int
            == pos && f.at <= s@.len(),
{
    let ghost dm = decls@.map_values(|x: FieldDecl| x@);
    let mut acc: Vec<FieldValue> = Vec::new();
    let mut cur: usize = i;
    let mut fi: usize = 0;
    proof {
        assert(acc@.map_values(|x: FieldValue| x@) =~= Seq::<ValueModel>::empty());
    }
    while fi < decls.len()
        invariant
            i <= cur <= s@.len(),
            fi <= decls@.len(),
            dm == decls@.map_values(|x: FieldDecl| x@),
            p_fields(s@, i as int, dm, 0, Seq::empty()) == p_fields(
                s@,
                cur as int,
                dm,
                fi as int,
                acc@.map_values(|x: FieldValue| x@),
            ),
        decreases decls@.len() - fi,
    {
        let ghost am = acc@.map_values(|x: FieldValue| x@);
        let jj = ws_skip(s, cur);
        match parse_str(s, cur) {
            Err(f) => {
                return Err(f);
            },
            Ok((nm, n)) => {
                if !crate::data::bytes_eq(&nm, &decls[fi].name) {
                    proof {
                        assert(dm[fi as int].name == decls@[fi as int].name@);
                    }
                    return Err(PFail { kind: ErrKind::Schema, at: jj });
                }
                proof {
                    assert(dm[fi as int].name == decls@[fi as int].name@);
                }
                let cl = lit1(58);
                match expect_lit(s, n, &cl) {
                    Err(f) => {
                        return Err(f);
                    },
                    Ok(n2) => {
                        proof {
                            assert(dm[fi as int].kind == decls@[fi as int].kind);
                        }
                        match parse_val(s, n2, decls[fi].kind) {
                            Err(f) => {
                                return Err(f);
                            },
                            Ok((v, n3)) => {
                                let cm = lit1(44);
                                match expect_lit(s, n3, &cm) {
                                    Err(f) => {
                                        return Err(f);
                                    },
                                    Ok(n4) => {
                                        acc.push(v);
                                        cur = n4;
                                        fi = fi + 1;
                                        proof {
                                            assert(acc@.map_values(|x: FieldValue| x@) =~= am.push(
                                                v@,
                                            ));
                                        }
                                    },
                                }
                            },
                        }
                    },
                }
            },
        }
    }
    Ok((acc, cur))
}

fn parse_record(s: &Vec<u8>, i: usize, reg: &TypeRegistry) -> (r: Result<(Record, usize), PFail>)
    requires
        i <= s@.len(),
    ensures
        p_rec(s@, i as int, reg@) matches PRes::Parsed(rm, n) ==> r matches Ok(p) && p.0@ == rm
            && p.1 as int == n && i < p.1 <= s@.len(),
        p_rec(s@, i as int, reg@) matches PRes::Failed(k, pos) ==> r matches Err(f) && f.kind
            == k && f.at as int == pos && f.at <= s@.len(),
{
    let op = lit1(40);
    let n0 = match expect_lit(s, i, &op) {
        Err(f) => {
            return Err(f);
        },
        Ok(n) => n,
    };
    let kt = kw_type();
    let n1 = match expect_lit(s, n0, &kt) {
        Err(f) => {
            return Err(f);
        },
        Ok(n) => n,
    };
    let cl = lit1(58);
    let n2 = match expect_lit(s, n1, &cl) {
        Err(f) => {
            return Err(f);
        },
        Ok(n) => n,
    };
    let jj = ws_skip(s, n2);
    let (ty, n3) = match parse_str(s, n2) {
        Err(f) => {
            return Err(f);
        },
        Ok(p) => p,
    };
    match reg.resolve(&ty) {
        None => Err(PFail { kind: ErrKind::UnknownType, at: jj }),
        Some(ei) => {
            let cm = lit1(44);
            let n4 = match expect_lit(s, n3, &cm) {
                Err(f) => {
                    return Err(f);
                },
                Ok(n) => n,
            };
            proof {
                assert(reg@[ei as int].fields == reg.types@[ei as int].fields@.map_values(
                    |x: FieldDecl| x@,
                ));
            }
            let (vals, n5) = match parse_fields(s, n4, &reg.types[ei].fields) {
                Err(f) => {
                    return Err(f);
                },
                Ok(p) => p,
            };
            let cp = lit1(41);
            let n6 = match expect_lit(s, n5, &cp) {
                Err(f) => {
                    return Err(f);
                },
                Ok(n) => n,
            };
            Ok((Record { ty, values: vals }, n6))
        },
    }
}

#[verifier::loop_isolation(false)]
fn parse_node(s: &Vec<u8>, i: usize, reg: &TypeRegistry) -> (r: Result<
    (SnapshotNode, usize),
    PFail,
>)
    requires
        i <= s@.len(),
    ensures
        p_node(s@, i as int, reg@) matches PRes::Parsed(nm, n) ==> r matches Ok(p) && p.0@ == nm
            && p.1 as int == n && i < p.1 <= s@.len(),
        p_node(s@, i as int, reg@) matches PRes::Failed(k, pos) ==> r matches Err(f) && f.kind
            == k && f.at as int == pos && f.at <= s@.len(),
{
    let op = lit1(40);
    let n0 = match expect_lit(s, i, &op) {
        Err(f) => {
            return Err(f);
        },
        Ok(n) => n,
    };
    let ke = kw_entity();
    let n1 = match expect_lit(s, n0, &ke) {
        Err(f) => {
            return Err(f);
        },
        Ok(n) => n,
    };
    let cl = lit1(58);
    let n2 = match expect_lit(s, n1, &cl) {
        Err(f) => {
            return Err(f);
        },
        Ok(n) => n,
    };
    let (id, n3) = match parse_u64(s, n2) {
        Err(f) => {
            return Err(f);
        },
        Ok(p) => p,
    };
    let cm = lit1(44);
    let n4 = match expect_lit(s, n3, &cm) {
        Err(f) => {
            return Err(f);
        },
        Ok(n) => n,
    };
    let kr = kw_records();
    let n5 = match expect_lit(s, n4, &kr) {
        Err(f) => {
            return Err(f);
        },
        Ok(n) => n,
    };
    let n6 = match expect_lit(s, n5, &cl) {
        Err(f) => {
            return Err(f);
        },
        Ok(n) => n,
    };
    let ob = lit1(91);
    let n7 = match expect_lit(s, n6, &ob) {
        Err(f) => {
            return Err(f);
        },
        Ok(n) => n,
    };
    let mut recs: Vec<Record> = Vec::new();
    let mut cur: usize = n7;
    proof {
        assert(recs@.map_values(|x: Record| x@) =~= Seq::<RecordModel>::empty());
    }
    loop
        invariant
            n7 <= cur <= s@.len(),
            p_rec_items(s@, n7 as int, reg@, Seq::empty()) == p_rec_items(
                s@,
                cur as int,
                reg@,
                recs@.map_values(|x: Record| x@),
            ),
        decreases s@.len() - cur,
    {
        let ghost rm = recs@.map_values(|x: Record| x@);
        let j2 = ws_skip(s, cur);
        if j2 < s.len() && s[j2] == 93 {
            let n8: usize = j2 + 1;
            let n9 = match expect_lit(s, n8, &cm) {
                Err(f) => {
                    return Err(f);
                },
                Ok(n) => n,
            };
            let cp = lit1(41);
            let n10 = match expect_lit(s, n9, &cp) {
                Err(f) => {
                    return Err(f);
                },
                Ok(n) => n,
            };
            let nd = SnapshotNode { id, records: recs };
            proof {
                assert(nd@ == SnapshotNodeModel {
                    id,
                    records: nd.records@.map_values(|x: Record| x@),
                });
            }
            return Ok((nd, n10));
        }
        match parse_record(s, j2, reg) {
            Err(f) => {
                return Err(f);
            },
            Ok((rec, nn)) => {
                match expect_lit(s, nn, &cm) {
                    Err(f) => {
                        return Err(f);
                    },
                    Ok(nn2) => {
                        recs.push(rec);
                        cur = nn2;
                        proof {
                            assert(recs@.map_values(|x: Record| x@) =~= rm.push(rec@));
                        }
                    },
                }
            },
        }
    }
}

/// A decode error: what went wrong, and where in the source text — byte
/// offset, one-based line and one-based column.
#[derive(Clone, PartialEq, Debug)]
pub struct DecodeError {
    pub kind: ErrKind,
    pub offset: usize,
    pub line: u64,
    pub col: u64,
}

#[verifier::loop_isolation(false)]
fn line_col(s: &Vec<u8>, off: usize) -> (r: (u64, u64))
    requires
        off <= s@.len(),
        s@.len() < u64::MAX,
    ensures
        r.0 as int == line_of(s@, off as int),
        r.1 as int == col_of(s@, off as int),
{
    let mut line: u64 = 1;
    let mut col: u64 = 1;
    let mut t: usize = 0;
    while t < off
        invariant
            t <= off,
            line as int == line_of(s@, t as int),
            col as int == col_of(s@, t as int),
            line as int <= t + 1,
            col as int <= t + 1,
        decreases off - t,
    {
        if s[t] == 10 {
            line = line + 1;
            col = 1;
        } else {
            col = col + 1;
        }
        t = t + 1;
    }
    (line, col)
}

/// Deserializes a document into a prefab under the registry.
///
/// The result is fixed by the specification parser `p_prefab`: on success
/// the returned prefab is exactly the parsed one; on failure the error
/// carries the kind and the byte offset of the first failure, together with
/// the one-based line and column of that offset in the source text, so that
/// tooling can point at the offending text.  Decoding performs no input or
/// output and never returns a partially decoded prefab.
pub fn deserialize(doc: &Vec<u8>, reg: &TypeRegistry) -> (r: Result<Prefab, DecodeError>)
    requires
        doc@.len() < u64::MAX,
    ensures
        p_prefab(doc@, reg@) matches PRes::Parsed(p, n) ==> r matches Ok(out) && out@ == p,
        p_prefab(doc@, reg@) matches PRes::Failed(k, pos) ==> r matches Err(e) && e.kind == k
            && e.offset as int == pos && e.line as int == line_of(doc@, pos) && e.col as int
            == col_of(doc@, pos),
{
    let f = match parse_prefab_doc(doc, reg) {
        Ok(p) => {
            return Ok(p);
        },
        Err(f) => f,
    };
    let (line, col) = line_col(doc, f.at);
    Err(DecodeError { kind: f.kind, offset: f.at, line, col })
}

#[verifier::loop_isolation(false)]
fn parse_prefab_doc(s: &Vec<u8>, reg: &TypeRegistry) -> (r: Result<Prefab, PFail>)
    ensures
        p_prefab(s@, reg@) matches PRes::Parsed(p, n) ==> r matches Ok(out) && out@ == p,
        p_prefab(s@, reg@) matches PRes::Failed(k, pos) ==> r matches Err(f) && f.kind == k
            && f.at as int == pos && f.at <= s@.len(),
{
    let op = lit1(40);
    let n0 = match expect_lit(s, 0, &op) {
        Err(f) => {
            return Err(f);
        },
        Ok(n) => n,
    };
    let kn = kw_name();
    let n1 = match expect_lit(s, n0, &kn) {
        Err(f) => {
            return Err(f);
        },
        Ok(n) => n,
    };
    let cl = lit1(58);
    let n2 = match expect_lit(s, n1, &cl) {
        Err(f) => {
            return Err(f);
        },
        Ok(n) => n,
    };
    let (name, n3) = match parse_str(s, n2) {
        Err(f) => {
            return Err(f);
        },
        Ok(p) => p,
    };
    let cm = lit1(44);
    let n4 = match expect_lit(s, n3, &cm) {
        Err(f) => {
            return Err(f);
        },
        Ok(n) => n,
    };
    let ks = kw_scene();
    let n5 = match expect_lit(s, n4, &ks) {
        Err(f) => {
            return Err(f);
        },
        Ok(n) => n,
    };
    let n6 = match expect_lit(s, n5, &cl) {
        Err(f) => {
            return Err(f);
        },
        Ok(n) => n,
    };
    let ob = lit1(91);
    let n7 = match expect_lit(s, n6, &ob) {
        Err(f) => {
            return Err(f);
        },
        Ok(n) => n,
    };
    let mut nodes: Vec<SnapshotNode> = Vec::new();
    let mut cur: usize = n7;
    proof {
        assert(nodes@.map_values(|x: SnapshotNode| x@) =~= Seq::<SnapshotNodeModel>::empty());
    }
    loop
        invariant
            n7 <= cur <= s@.len(),
            p_node_items(s@, n7 as int, reg@, Seq::empty()) == p_node_items(
                s@,
                cur as int,
                reg@,
                nodes@.map_values(|x: SnapshotNode| x@),
            ),
        decreases s@.len() - cur,
    {
        let ghost nm = nodes@.map_values(|x: SnapshotNode| x@);
        let j2 = ws_skip(s, cur);
        if j2 < s.len() && s[j2] == 93 {
            let n8: usize = j2 + 1;
            let n9 = match expect_lit(s, n8, &cm) {
                Err(f) => {
                    return Err(f);
                },
                Ok(n) => n,
            };
            let cp = lit1(41);
            let n10 = match expect_lit(s, n9, &cp) {
                Err(f) => {
                    return Err(f);
                },
                Ok(n) => n,
            };
            let e = ws_skip(s, n10);
            if e == s.len() {
                let out = Prefab { name, scene: Snapshot { nodes } };
                proof {
                    assert(out@.scene == out.scene.nodes@.map_values(|x: SnapshotNode| x@));
                }
                return Ok(out);
            } else {
                return Err(PFail { kind: ErrKind::Syntax, at: e });
            }
        }
        match parse_node(s, j2, reg) {
            Err(f) => {
                return Err(f);
            },
            Ok((nd, nn)) => {
                match expect_lit(s, nn, &cm) {
                    Err(f) => {
                        return Err(f);
                    },
                    Ok(nn2) => {
                        nodes.push(nd);
                        cur = nn2;
                        proof {
                            assert(nodes@.map_values(|x: SnapshotNode| x@) =~= nm.push(nd@));
                        }
                    },
                }
            },
        }
    }
}

} // verus!
