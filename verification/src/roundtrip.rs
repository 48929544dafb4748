//! The codec's round-trip law: parsing the document the serializer emits
//! gives back exactly the prefab it was given.

use vstd::prelude::*;
use crate::data::{
    prefab_ok, record_ok, resolve_spec, value_matches, FieldDeclModel, FieldKind, PrefabModel,
    RecordModel, SnapshotNodeModel, TypeEntryModel, ValueModel,
};
use crate::enc::{
    dec_digits, enc_i64, enc_node, enc_nodes, enc_prefab, enc_rec, enc_recs, enc_refs, enc_str,
    enc_u64, enc_val, enc_fields, esc, esc_byte, is_digit, is_ws, lit_entity, lit_false, lit_name,
    lit_records, lit_scene, lit_true, lit_type, nl,
};
use crate::parse::{
    digits_end, dval, p_bool, p_fields, p_i64, p_lit, p_node, p_node_items, p_prefab, p_rec,
    p_rec_items, p_ref_items, p_str, p_str_body, p_u64, p_val, skip_ws, ErrKind, PRes,
};

verus! {

/// The bytes of `e` stand in `s` beginning at `i`.
pub open spec fn at(s: Seq<u8>, i: int, e: Seq<u8>) -> bool {
    &&& 0 <= i
    &&& i + e.len() <= s.len()
    &&& s.subrange(i, i + e.len()) == e
}

proof fn lemma_at_split(s: Seq<u8>, i: int, e1: Seq<u8>, e2: Seq<u8>)
    requires
        at(s, i, e1 + e2),
    ensures
        at(s, i, e1),
        at(s, i + e1.len(), e2),
{
    let w = s.subrange(i, i + (e1 + e2).len());
    assert forall|t: int| 0 <= t < e1.len() implies s.subrange(i, i + e1.len())[t] == e1[t] by {
        assert(w[t] == (e1 + e2)[t]);
    }
    assert(s.subrange(i, i + e1.len()) =~= e1);
    assert forall|t: int| 0 <= t < e2.len() implies s.subrange(
        i + e1.len(),
        i + e1.len() + e2.len(),
    )[t] == e2[t] by {
        assert(w[e1.len() + t] == (e1 + e2)[e1.len() + t]);
    }
    assert(s.subrange(i + e1.len(), i + e1.len() + e2.len()) =~= e2);
}

proof fn lemma_at_byte(s: Seq<u8>, i: int, e: Seq<u8>, t: int)
    requires
        at(s, i, e),
        0 <= t < e.len(),
    ensures
        s[i + t] == e[t],
{
    assert(s.subrange(i, i + e.len())[t] == e[t]);
}

proof fn lemma_at_join(s: Seq<u8>, i: int, e1: Seq<u8>, e2: Seq<u8>)
    requires
        at(s, i, e1),
        at(s, i + e1.len(), e2),
    ensures
        at(s, i, e1 + e2),
{
    assert forall|t: int| 0 <= t < (e1 + e2).len() implies s.subrange(
        i,
        i + (e1 + e2).len(),
    )[t] == (e1 + e2)[t] by {
        if t < e1.len() {
            lemma_at_byte(s, i, e1, t);
        } else {
            lemma_at_byte(s, i + e1.len(), e2, t - e1.len());
        }
    }
    assert(s.subrange(i, i + (e1 + e2).len()) =~= e1 + e2);
}

proof fn lemma_ws_run(s: Seq<u8>, i: int, w: int)
    requires
        0 <= i,
        0 <= w,
        i + w <= s.len(),
        forall|t: int| i <= t < i + w ==> is_ws(#[trigger] s[t]),
        i + w == s.len() || !is_ws(s[i + w]),
    ensures
        skip_ws(s, i) == i + w,
    decreases w,
{
    if w > 0 {
        assert(is_ws(s[i]));
        lemma_ws_run(s, i + 1, w - 1);
    }
}

proof fn lemma_nl_ws(d: nat)
    ensures
        nl(d).len() == 1 + 2 * d,
        forall|t: int| 0 <= t < nl(d).len() ==> is_ws(#[trigger] nl(d)[t]),
{
    assert forall|t: int| 0 <= t < nl(d).len() implies is_ws(#[trigger] nl(d)[t]) by {
        if t == 0 {
            assert(nl(d)[0] == 10u8);
        } else {
            assert(nl(d)[t] == 32u8);
        }
    }
}

proof fn lemma_p_lit_at(s: Seq<u8>, i: int, w: int, lit: Seq<u8>)
    requires
        0 <= i,
        0 <= w,
        forall|t: int| i <= t < i + w ==> is_ws(#[trigger] s[t]),
        at(s, i + w, lit),
        lit.len() >= 1,
        !is_ws(lit[0]),
    ensures
        p_lit(s, i, lit) == PRes::<()>::Parsed((), i + w + lit.len()),
{
    lemma_at_byte(s, i + w, lit, 0);
    lemma_ws_run(s, i, w);
    assert(s.subrange(i + w, i + w + lit.len()) == lit);
}

proof fn lemma_p_lit_nl_at(s: Seq<u8>, i: int, d: nat, lit: Seq<u8>)
    requires
        0 <= i,
        at(s, i, nl(d) + lit),
        lit.len() >= 1,
        !is_ws(lit[0]),
    ensures
        p_lit(s, i, lit) == PRes::<()>::Parsed((), i + nl(d).len() + lit.len()),
{
    lemma_at_split(s, i, nl(d), lit);
    lemma_nl_ws(d);
    assert forall|t: int| i <= t < i + nl(d).len() implies is_ws(#[trigger] s[t]) by {
        lemma_at_byte(s, i, nl(d), t - i);
    }
    lemma_p_lit_at(s, i, nl(d).len() as int, lit);
}

proof fn lemma_dec_digits_props(n: nat)
    ensures
        dec_digits(n).len() >= 1,
        forall|t: int| 0 <= t < dec_digits(n).len() ==> is_digit(#[trigger] dec_digits(n)[t]),
    decreases n,
{
    if n < 10 {
        assert(dec_digits(n)[0] == (48 + n) as u8);
    } else {
        lemma_dec_digits_props(n / 10);
        assert forall|t: int| 0 <= t < dec_digits(n).len() implies is_digit(
            #[trigger] dec_digits(n)[t],
        ) by {
            if t < dec_digits(n / 10).len() {
                assert(dec_digits(n)[t] == dec_digits(n / 10)[t]);
            } else {
                assert(dec_digits(n)[t] == (48 + n % 10) as u8);
            }
        }
    }
}

proof fn lemma_digits_run(s: Seq<u8>, i: int, w: int)
    requires
        0 <= i,
        0 <= w,
        i + w <= s.len(),
        forall|t: int| i <= t < i + w ==> is_digit(#[trigger] s[t]),
        i + w == s.len() || !is_digit(s[i + w]),
    ensures
        digits_end(s, i) == i + w,
    decreases w,
{
    if w > 0 {
        assert(is_digit(s[i]));
        lemma_digits_run(s, i + 1, w - 1);
    }
}

proof fn lemma_dval_dec_digits(n: nat)
    ensures
        dval(dec_digits(n)) == n,
    decreases n,
{
    if n < 10 {
        let ds = dec_digits(n);
        assert(ds.drop_last() =~= Seq::<u8>::empty());
        assert(dval(ds) == dval(ds.drop_last()) * 10 + (ds.last() - 48) as nat);
    } else {
        lemma_dval_dec_digits(n / 10);
        let ds = dec_digits(n);
        assert(ds.drop_last() =~= dec_digits(n / 10));
        assert(ds.last() == (48 + n % 10) as u8);
        assert(dval(ds) == dval(dec_digits(n / 10)) * 10 + (n % 10));
        vstd::arithmetic::div_mod::lemma_fundamental_div_mod(n as int, 10);
    }
}

proof fn lemma_p_u64_at(s: Seq<u8>, i: int, w: int, n: u64)
    requires
        0 <= i,
        0 <= w,
        forall|t: int| i <= t < i + w ==> is_ws(#[trigger] s[t]),
        at(s, i + w, enc_u64(n)),
        i + w + enc_u64(n).len() == s.len() || !is_digit(s[i + w + enc_u64(n).len()]),
    ensures
        p_u64(s, i) == PRes::<u64>::Parsed(n, i + w + enc_u64(n).len()),
{
    let e = enc_u64(n);
    lemma_dec_digits_props(n as nat);
    lemma_at_byte(s, i + w, e, 0);
    lemma_ws_run(s, i, w);
    let j = i + w;
    assert forall|t: int| j <= t < j + e.len() implies is_digit(#[trigger] s[t]) by {
        lemma_at_byte(s, j, e, t - j);
    }
    lemma_digits_run(s, j, e.len() as int);
    assert(s.subrange(j, j + e.len()) == e);
    lemma_dval_dec_digits(n as nat);
    assert(dval(s.subrange(j, digits_end(s, j))) == n);
}

proof fn lemma_p_i64_at(s: Seq<u8>, i: int, w: int, n: i64)
    requires
        0 <= i,
        0 <= w,
        forall|t: int| i <= t < i + w ==> is_ws(#[trigger] s[t]),
        at(s, i + w, enc_i64(n)),
        i + w + enc_i64(n).len() == s.len() || !is_digit(s[i + w + enc_i64(n).len()]),
    ensures
        p_i64(s, i) == PRes::<i64>::Parsed(n, i + w + enc_i64(n).len()),
{
    let e = enc_i64(n);
    let j = i + w;
    if n >= 0 {
        lemma_dec_digits_props(n as nat);
        lemma_at_byte(s, j, e, 0);
        assert(!is_ws(s[j]));
        lemma_ws_run(s, i, w);
        assert(s[j] != 45);
        assert forall|t: int| j <= t < j + e.len() implies is_digit(#[trigger] s[t]) by {
            lemma_at_byte(s, j, e, t - j);
        }
        lemma_digits_run(s, j, e.len() as int);
        assert(s.subrange(j, j + e.len()) == e);
        lemma_dval_dec_digits(n as nat);
        assert(dval(s.subrange(j, digits_end(s, j))) == n);
    } else {
        let m = (-(n as int)) as nat;
        let ds = dec_digits(m);
        lemma_dec_digits_props(m);
        lemma_at_split(s, j, seq![45u8], ds);
        lemma_at_byte(s, j, seq![45u8] + ds, 0);
        assert(s[j] == 45);
        lemma_ws_run(s, i, w);
        assert forall|t: int| j + 1 <= t < j + 1 + ds.len() implies is_digit(#[trigger] s[t]) by {
            lemma_at_byte(s, j + 1, ds, t - (j + 1));
        }
        lemma_digits_run(s, j + 1, ds.len() as int);
        assert(s.subrange(j + 1, j + 1 + ds.len()) == ds);
        lemma_dval_dec_digits(m);
        assert(dval(s.subrange(j + 1, digits_end(s, j + 1))) == m);
        assert(m <= i64::MAX as nat + 1);
        assert((-(m as int)) as i64 == n);
    }
}

proof fn lemma_p_bool_at(s: Seq<u8>, i: int, w: int, b: bool)
    requires
        0 <= i,
        0 <= w,
        forall|t: int| i <= t < i + w ==> is_ws(#[trigger] s[t]),
        at(s, i + w, if b { lit_true() } else { lit_false() }),
    ensures
        p_bool(s, i) == PRes::<bool>::Parsed(
            b,
            i + w + if b { lit_true().len() } else { lit_false().len() },
        ),
{
    lemma_ws_run(s, i, w);
    let j = i + w;
    if b {
        lemma_at_byte(s, j, lit_true(), 0);
        lemma_p_lit_at(s, i, w, lit_true());
    } else {
        lemma_at_byte(s, j, lit_false(), 0);
        lemma_p_lit_at(s, i, w, lit_false());
        // the `true` literal cannot match: the first byte differs
        if j + lit_true().len() <= s.len() && s.subrange(j, j + lit_true().len()) == lit_true() {
            assert(s.subrange(j, j + lit_true().len())[0] == s[j]);
            assert(s[j] == 102);
            assert(lit_true()[0] == 116);
        }
    }
}

proof fn lemma_p_str_body_at(s: Seq<u8>, i: int, q: Seq<u8>, acc: Seq<u8>)
    requires
        0 <= i,
        at(s, i, esc(q) + seq![34u8]),
    ensures
        p_str_body(s, i, acc) == PRes::<Seq<u8>>::Parsed(acc + q, i + esc(q).len() + 1),
    decreases q.len(),
{
    if q.len() == 0 {
        assert(esc(q) =~= Seq::<u8>::empty());
        lemma_at_byte(s, i, esc(q) + seq![34u8], 0);
        assert(s[i] == 34);
        assert(acc + q =~= acc);
    } else {
        let b = q[0];
        let rest = q.drop_first();
        assert(esc(q) == esc_byte(b) + esc(rest));
        assert((esc_byte(b) + esc(rest)) + seq![34u8] =~= esc_byte(b) + (esc(rest) + seq![34u8]));
        lemma_at_split(s, i, esc_byte(b), esc(rest) + seq![34u8]);
        if b == 34 || b == 92 {
            lemma_at_byte(s, i, esc_byte(b), 0);
            lemma_at_byte(s, i, esc_byte(b), 1);
            assert(s[i] == 92);
            assert(s[i + 1] == b);
            lemma_p_str_body_at(s, i + 2, rest, acc.push(b));
            assert(acc.push(b) + rest =~= acc + q);
        } else {
            lemma_at_byte(s, i, esc_byte(b), 0);
            assert(s[i] == b);
            lemma_p_str_body_at(s, i + 1, rest, acc.push(b));
            assert(acc.push(b) + rest =~= acc + q);
        }
    }
}

proof fn lemma_p_str_at(s: Seq<u8>, i: int, w: int, q: Seq<u8>)
    requires
        0 <= i,
        0 <= w,
        forall|t: int| i <= t < i + w ==> is_ws(#[trigger] s[t]),
        at(s, i + w, enc_str(q)),
    ensures
        p_str(s, i) == PRes::<Seq<u8>>::Parsed(q, i + w + enc_str(q).len()),
{
    let j = i + w;
    lemma_at_byte(s, j, enc_str(q), 0);
    assert(s[j] == 34);
    lemma_ws_run(s, i, w);
    assert((seq![34u8] + esc(q)) + seq![34u8] =~= seq![34u8] + (esc(q) + seq![34u8]));
    lemma_at_split(s, j, seq![34u8], esc(q) + seq![34u8]);
    lemma_p_str_body_at(s, j + 1, q, Seq::empty());
    assert(Seq::empty() + q =~= q);
}

proof fn lemma_p_ref_items_at(s: Seq<u8>, i: int, rs: Seq<u64>, acc: Seq<u64>)
    requires
        0 <= i,
        at(s, i, enc_refs(rs) + seq![93u8]),
    ensures
        p_ref_items(s, i, acc) == PRes::<Seq<u64>>::Parsed(
            acc + rs,
            i + enc_refs(rs).len() + 1,
        ),
    decreases rs.len(),
{
    if rs.len() == 0 {
        assert(enc_refs(rs) + seq![93u8] =~= seq![93u8]);
        lemma_at_byte(s, i, enc_refs(rs) + seq![93u8], 0);
        assert(s[i] == 93);
        lemma_ws_run(s, i, 0);
        assert(acc + rs =~= acc);
    } else {
        let v = rs[0];
        let rest = rs.drop_first();
        let ev = enc_u64(v);
        assert(enc_refs(rs) == ev + seq![44u8] + enc_refs(rest));
        assert((ev + seq![44u8] + enc_refs(rest)) + seq![93u8] =~= ev + (seq![44u8] + (enc_refs(
            rest,
        ) + seq![93u8])));
        lemma_at_split(s, i, ev, seq![44u8] + (enc_refs(rest) + seq![93u8]));
        lemma_at_split(s, i + ev.len(), seq![44u8], enc_refs(rest) + seq![93u8]);
        lemma_dec_digits_props(v as nat);
        lemma_at_byte(s, i, ev, 0);
        lemma_ws_run(s, i, 0);
        lemma_at_byte(s, i + ev.len(), seq![44u8], 0);
        assert(s[i + ev.len()] == 44);
        lemma_p_u64_at(s, i, 0, v);
        lemma_p_lit_at(s, i + ev.len(), 0, seq![44u8]);
        let n2 = i + ev.len() + 1;
        lemma_p_ref_items_at(s, n2, rest, acc.push(v));
        assert(acc.push(v) + rest =~= acc + rs);
        assert(enc_refs(rs).len() == ev.len() + 1 + enc_refs(rest).len());
    }
}

proof fn lemma_p_val_at(s: Seq<u8>, i: int, w: int, v: ValueModel)
    requires
        0 <= i,
        0 <= w,
        forall|t: int| i <= t < i + w ==> is_ws(#[trigger] s[t]),
        at(s, i + w, enc_val(v)),
        i + w + enc_val(v).len() < s.len(),
        s[i + w + enc_val(v).len()] == 44,
    ensures
        p_val(s, i, crate::data::kind_of(v)) == PRes::<ValueModel>::Parsed(
            v,
            i + w + enc_val(v).len(),
        ),
{
    match v {
        ValueModel::Bool(b) => {
            lemma_p_bool_at(s, i, w, b);
        },
        ValueModel::Int(n) => {
            lemma_p_i64_at(s, i, w, n);
        },
        ValueModel::Str(q) => {
            lemma_p_str_at(s, i, w, q);
        },
        ValueModel::Refs(rs) => {
            assert((seq![91u8] + enc_refs(rs)) + seq![93u8] =~= seq![91u8] + (enc_refs(rs) + seq![
                93u8,
            ]));
            lemma_at_split(s, i + w, seq![91u8], enc_refs(rs) + seq![93u8]);
            lemma_p_lit_at(s, i, w, seq![91u8]);
            lemma_p_ref_items_at(s, i + w + 1, rs, Seq::empty());
            assert(Seq::empty() + rs =~= rs);
        },
    }
}

#[verifier::rlimit(80)]
proof fn lemma_p_fields_at(
    s: Seq<u8>,
    i: int,
    decls: Seq<FieldDeclModel>,
    vals: Seq<ValueModel>,
    fi: int,
    acc: Seq<ValueModel>,
    d: nat,
)
    requires
        0 <= fi <= decls.len(),
        decls.len() == vals.len(),
        forall|t: int| fi <= t < vals.len() ==> value_matches(#[trigger] vals[t], decls[t].kind),
        0 <= i,
        at(s, i, enc_fields(decls.skip(fi), vals.skip(fi), d)),
    ensures
        p_fields(s, i, decls, fi, acc) == PRes::<Seq<ValueModel>>::Parsed(
            acc + vals.skip(fi),
            i + enc_fields(decls.skip(fi), vals.skip(fi), d).len(),
        ),
    decreases decls.len() - fi,
{
    if fi == decls.len() {
        assert(vals.skip(fi).len() == 0);
        assert(acc + vals.skip(fi) =~= acc);
    } else {
        let ds = decls.skip(fi);
        let vs = vals.skip(fi);
        assert(ds[0] == decls[fi]);
        assert(vs[0] == vals[fi]);
        assert(ds.drop_first() =~= decls.skip(fi + 1));
        assert(vs.drop_first() =~= vals.skip(fi + 1));
        let c1 = nl(d);
        let c2 = enc_str(decls[fi].name);
        let c3 = seq![58u8, 32u8];
        let c4 = enc_val(vals[fi]);
        let c5 = seq![44u8];
        let c6 = enc_fields(decls.skip(fi + 1), vals.skip(fi + 1), d);
        assert(enc_fields(ds, vs, d) == c1 + c2 + c3 + c4 + c5 + c6);
        assert(c1 + c2 + c3 + c4 + c5 + c6 =~= (c1 + c2) + (c3 + (c4 + (c5 + c6))));
        lemma_at_split(s, i, c1 + c2, c3 + (c4 + (c5 + c6)));
        let o2 = i + c1.len() + c2.len();
        lemma_at_split(s, o2, c3, c4 + (c5 + c6));
        let o3 = o2 + 2;
        lemma_at_split(s, o3, c4, c5 + c6);
        let o4 = o3 + c4.len();
        lemma_at_split(s, o4, c5, c6);
        let o5 = o4 + 1;
        // the field name, behind the line break and indentation
        lemma_nl_ws(d);
        assert forall|t: int| i <= t < i + c1.len() implies is_ws(#[trigger] s[t]) by {
            lemma_at_split(s, i, c1, c2);
            lemma_at_byte(s, i, c1, t - i);
        }
        lemma_at_split(s, i, c1, c2);
        lemma_p_str_at(s, i, c1.len() as int, decls[fi].name);
        // the colon
        assert(c3 =~= seq![58u8] + seq![32u8]);
        lemma_at_split(s, o2, seq![58u8], seq![32u8]);
        lemma_at_byte(s, o2, seq![58u8], 0);
        lemma_p_lit_at(s, o2, 0, seq![58u8]);
        // the value, behind one space
        lemma_at_byte(s, o2 + 1, seq![32u8], 0);
        lemma_at_byte(s, o4, c5, 0);
        assert(s[o4] == 44);
        assert forall|t: int| o2 + 1 <= t < o3 implies is_ws(#[trigger] s[t]) by {
            assert(t == o2 + 1);
        }
        assert(crate::data::kind_of(vals[fi]) == decls[fi].kind);
        lemma_p_val_at(s, o2 + 1, 1, vals[fi]);
        // the comma
        lemma_p_lit_at(s, o4, 0, seq![44u8]);
        // the remaining fields
        lemma_p_fields_at(s, o5, decls, vals, fi + 1, acc.push(vals[fi]), d);
        assert(acc.push(vals[fi]) + vals.skip(fi + 1) =~= acc + vals.skip(fi));
        assert(enc_fields(ds, vs, d).len() == c1.len() + c2.len() + 2 + c4.len() + 1 + c6.len());
    }
}

#[verifier::rlimit(100)]
proof fn lemma_p_rec_at(s: Seq<u8>, i: int, w: int, reg: Seq<TypeEntryModel>, r: RecordModel, d: nat)
    requires
        0 <= i,
        0 <= w,
        forall|t: int| i <= t < i + w ==> is_ws(#[trigger] s[t]),
        record_ok(reg, r),
        at(s, i + w, enc_rec(reg, r, d)),
    ensures
        p_rec(s, i, reg) == PRes::<RecordModel>::Parsed(r, i + w + enc_rec(reg, r, d).len()),
{
    let e = resolve_spec(reg, r.ty)->Some_0;
    let flds = reg[e].fields;
    let c1 = seq![40u8];
    let c2 = nl(d + 1);
    let c3 = lit_type();
    let c4 = seq![58u8, 32u8];
    let c5 = enc_str(r.ty);
    let c6 = seq![44u8];
    let c7 = enc_fields(flds, r.values, d + 1);
    let c8 = nl(d);
    let c9 = seq![41u8];
    assert(enc_rec(reg, r, d) == c1 + c2 + c3 + c4 + c5 + c6 + c7 + c8 + c9);
    assert(c1 + c2 + c3 + c4 + c5 + c6 + c7 + c8 + c9 =~= c1 + ((c2 + c3) + (c4 + (c5 + (c6 + (c7
        + (c8 + c9)))))));
    let j = i + w;
    lemma_at_split(s, j, c1, (c2 + c3) + (c4 + (c5 + (c6 + (c7 + (c8 + c9))))));
    let o1 = j + 1;
    lemma_at_split(s, o1, c2 + c3, c4 + (c5 + (c6 + (c7 + (c8 + c9)))));
    let o2 = o1 + c2.len() + c3.len();
    lemma_at_split(s, o2, c4, c5 + (c6 + (c7 + (c8 + c9))));
    let o3 = o2 + 2;
    lemma_at_split(s, o3, c5, c6 + (c7 + (c8 + c9)));
    let o4 = o3 + c5.len();
    lemma_at_split(s, o4, c6, c7 + (c8 + c9));
    let o5 = o4 + 1;
    lemma_at_split(s, o5, c7, c8 + c9);
    let o6 = o5 + c7.len();
    // the opening parenthesis
    lemma_at_byte(s, j, c1, 0);
    lemma_p_lit_at(s, i, w, c1);
    // the `type` keyword, behind the line break
    lemma_p_lit_nl_at(s, o1, (d + 1) as nat, c3);
    // the colon and the space
    assert(c4 =~= seq![58u8] + seq![32u8]);
    lemma_at_split(s, o2, seq![58u8], seq![32u8]);
    lemma_at_byte(s, o2, seq![58u8], 0);
    lemma_p_lit_at(s, o2, 0, seq![58u8]);
    // the type name, behind one space
    lemma_at_byte(s, o2 + 1, seq![32u8], 0);
    assert forall|t: int| o2 + 1 <= t < o3 implies is_ws(#[trigger] s[t]) by {
        assert(t == o2 + 1);
    }
    lemma_p_str_at(s, o2 + 1, 1, r.ty);
    // the comma
    lemma_at_byte(s, o4, c6, 0);
    lemma_p_lit_at(s, o4, 0, c6);
    // the fields in declaration order
    assert(flds.skip(0) =~= flds);
    assert(r.values.skip(0) =~= r.values);
    lemma_p_fields_at(s, o5, flds, r.values, 0, Seq::empty(), (d + 1) as nat);
    assert(Seq::<ValueModel>::empty() + r.values =~= r.values);
    // the closing parenthesis, behind the line break
    lemma_p_lit_nl_at(s, o6, d, c9);
    assert(RecordModel { ty: r.ty, values: r.values } == r);
    assert(enc_rec(reg, r, d).len() == 1 + c2.len() + c3.len() + 2 + c5.len() + 1 + c7.len()
        + c8.len() + 1);
}

#[verifier::rlimit(100)]
proof fn lemma_p_rec_items_at(
    s: Seq<u8>,
    i: int,
    reg: Seq<TypeEntryModel>,
    rs: Seq<RecordModel>,
    acc: Seq<RecordModel>,
    d: nat,
    dc: nat,
)
    requires
        0 <= i,
        forall|t: int| 0 <= t < rs.len() ==> record_ok(reg, #[trigger] rs[t]),
        at(s, i, enc_recs(reg, rs, d) + (nl(dc) + seq![93u8])),
    ensures
        p_rec_items(s, i, reg, acc) == PRes::<Seq<RecordModel>>::Parsed(
            acc + rs,
            i + enc_recs(reg, rs, d).len() + nl(dc).len() + 1,
        ),
    decreases rs.len(),
{
    lemma_nl_ws(dc);
    if rs.len() == 0 {
        assert(enc_recs(reg, rs, d) + (nl(dc) + seq![93u8]) =~= nl(dc) + seq![93u8]);
        lemma_at_split(s, i, nl(dc), seq![93u8]);
        assert forall|t: int| i <= t < i + nl(dc).len() implies is_ws(#[trigger] s[t]) by {
            lemma_at_byte(s, i, nl(dc), t - i);
        }
        lemma_at_byte(s, i + nl(dc).len(), seq![93u8], 0);
        lemma_ws_run(s, i, nl(dc).len() as int);
        assert(s[i + nl(dc).len()] == 93);
        assert(acc + rs =~= acc);
    } else {
        let r0 = rs[0];
        let rest = rs.drop_first();
        let c1 = nl(d);
        let c2 = enc_rec(reg, r0, d);
        let c3 = seq![44u8];
        let c4 = enc_recs(reg, rest, d);
        assert(enc_recs(reg, rs, d) == c1 + c2 + c3 + c4);
        assert((c1 + c2 + c3 + c4) + (nl(dc) + seq![93u8]) =~= c1 + (c2 + (c3 + (c4 + (nl(dc)
            + seq![93u8])))));
        lemma_at_split(s, i, c1, c2 + (c3 + (c4 + (nl(dc) + seq![93u8]))));
        let o1 = i + c1.len();
        lemma_at_split(s, o1, c2, c3 + (c4 + (nl(dc) + seq![93u8])));
        let o2 = o1 + c2.len();
        lemma_at_split(s, o2, c3, c4 + (nl(dc) + seq![93u8]));
        let o3 = o2 + 1;
        lemma_nl_ws(d);
        assert forall|t: int| i <= t < o1 implies is_ws(#[trigger] s[t]) by {
            lemma_at_byte(s, i, c1, t - i);
        }
        lemma_at_byte(s, o1, c2, 0);
        assert(s[o1] == 40);
        lemma_ws_run(s, i, c1.len() as int);
        lemma_p_rec_at(s, o1, 0, reg, r0, d);
        lemma_at_byte(s, o2, c3, 0);
        lemma_p_lit_at(s, o2, 0, c3);
        assert(forall|t: int| 0 <= t < rest.len() ==> record_ok(reg, #[trigger] rest[t]));
        lemma_p_rec_items_at(s, o3, reg, rest, acc.push(r0), d, dc);
        assert(acc.push(r0) + rest =~= acc + rs);
        assert(enc_recs(reg, rs, d).len() == c1.len() + c2.len() + 1 + c4.len());
    }
}

#[verifier::rlimit(100)]
proof fn lemma_p_node_at(
    s: Seq<u8>,
    i: int,
    w: int,
    reg: Seq<TypeEntryModel>,
    nd: SnapshotNodeModel,
    d: nat,
)
    requires
        0 <= i,
        0 <= w,
        forall|t: int| i <= t < i + w ==> is_ws(#[trigger] s[t]),
        crate::data::node_ok(reg, nd),
        at(s, i + w, enc_node(reg, nd, d)),
    ensures
        p_node(s, i, reg) == PRes::<SnapshotNodeModel>::Parsed(
            nd,
            i + w + enc_node(reg, nd, d).len(),
        ),
{
    let c1 = seq![40u8];
    let c2 = nl(d + 1);
    let c3 = lit_entity();
    let c4 = seq![58u8, 32u8];
    let c5 = enc_u64(nd.id);
    let c6 = seq![44u8];
    let c7 = nl(d + 1);
    let c8 = lit_records();
    let c9 = seq![58u8, 32u8, 91u8];
    let c10 = enc_recs(reg, nd.records, d + 2);
    let c11 = nl(d + 1);
    let c12 = seq![93u8, 44u8];
    let c13 = nl(d);
    let c14 = seq![41u8];
    let j = i + w;
    let pre1 = c1;
    let pre2 = pre1 + c2;
    let pre3 = pre2 + c3;
    let pre4 = pre3 + c4;
    let pre5 = pre4 + c5;
    let pre6 = pre5 + c6;
    let pre7 = pre6 + c7;
    let pre8 = pre7 + c8;
    let pre9 = pre8 + c9;
    let pre10 = pre9 + c10;
    let pre11 = pre10 + c11;
    let pre12 = pre11 + c12;
    let pre13 = pre12 + c13;
    assert(enc_node(reg, nd, d) == pre13 + c14);
    lemma_at_split(s, j, pre13, c14);
    lemma_at_split(s, j, pre12, c13);
    lemma_at_split(s, j, pre11, c12);
    lemma_at_split(s, j, pre10, c11);
    lemma_at_split(s, j, pre9, c10);
    lemma_at_split(s, j, pre8, c9);
    lemma_at_split(s, j, pre7, c8);
    lemma_at_split(s, j, pre6, c7);
    lemma_at_split(s, j, pre5, c6);
    lemma_at_split(s, j, pre4, c5);
    lemma_at_split(s, j, pre3, c4);
    lemma_at_split(s, j, pre2, c3);
    lemma_at_split(s, j, pre1, c2);
    let o1 = j + 1;
    let o2 = o1 + c2.len() + c3.len();
    let o3 = o2 + 2;
    let o4 = o3 + c5.len();
    let o5 = o4 + 1;
    let o6 = o5 + c7.len() + c8.len();
    let o7 = o6 + 3;
    let o8 = o7 + c10.len() + c11.len() + 1;
    let o9 = o8 + 1;
    // the opening parenthesis
    lemma_at_byte(s, j, c1, 0);
    lemma_p_lit_at(s, i, w, c1);
    // the `entity` keyword, behind the line break
    lemma_at_join(s, o1, c2, c3);
    lemma_p_lit_nl_at(s, o1, (d + 1) as nat, c3);
    // the colon, the space, and the id
    assert(c4 =~= seq![58u8] + seq![32u8]);
    lemma_at_split(s, o2, seq![58u8], seq![32u8]);
    lemma_at_byte(s, o2, seq![58u8], 0);
    lemma_p_lit_at(s, o2, 0, seq![58u8]);
    lemma_at_byte(s, o2 + 1, seq![32u8], 0);
    assert forall|t: int| o2 + 1 <= t < o3 implies is_ws(#[trigger] s[t]) by {
        assert(t == o2 + 1);
    }
    lemma_at_byte(s, o4, c6, 0);
    assert(s[o4] == 44);
    lemma_p_u64_at(s, o2 + 1, 1, nd.id);
    lemma_p_lit_at(s, o4, 0, c6);
    // the `records` keyword, behind the line break
    lemma_at_join(s, o5, c7, c8);
    lemma_p_lit_nl_at(s, o5, (d + 1) as nat, c8);
    // the colon, the space, and the opening bracket
    assert(c9 =~= (seq![58u8] + seq![32u8]) + seq![91u8]);
    lemma_at_split(s, o6, seq![58u8] + seq![32u8], seq![91u8]);
    lemma_at_split(s, o6, seq![58u8], seq![32u8]);
    lemma_at_byte(s, o6, seq![58u8], 0);
    lemma_p_lit_at(s, o6, 0, seq![58u8]);
    lemma_at_byte(s, o6 + 1, seq![32u8], 0);
    lemma_at_byte(s, o6 + 2, seq![91u8], 0);
    assert forall|t: int| o6 + 1 <= t < o6 + 2 implies is_ws(#[trigger] s[t]) by {
        assert(t == o6 + 1);
    }
    lemma_p_lit_at(s, o6 + 1, 1, seq![91u8]);
    // the record list, closed by the bracket behind the line break
    assert(c12 =~= seq![93u8] + seq![44u8]);
    lemma_at_split(s, o7 + c10.len() + c11.len(), seq![93u8], seq![44u8]);
    lemma_at_join(s, o7 + c10.len(), c11, seq![93u8]);
    lemma_at_join(s, o7, c10, c11 + seq![93u8]);
    lemma_p_rec_items_at(s, o7, reg, nd.records, Seq::empty(), (d + 2) as nat, (d + 1) as nat);
    assert(Seq::<RecordModel>::empty() + nd.records =~= nd.records);
    // the comma after the bracket
    lemma_at_byte(s, o8, seq![44u8], 0);
    lemma_p_lit_at(s, o8, 0, seq![44u8]);
    // the closing parenthesis, behind the line break
    lemma_at_join(s, o9, c13, c14);
    lemma_p_lit_nl_at(s, o9, d, c14);
    assert(SnapshotNodeModel { id: nd.id, records: nd.records } == nd);
}

#[verifier::rlimit(100)]
proof fn lemma_p_node_items_at(
    s: Seq<u8>,
    i: int,
    reg: Seq<TypeEntryModel>,
    ns: Seq<SnapshotNodeModel>,
    acc: Seq<SnapshotNodeModel>,
)
    requires
        0 <= i,
        forall|t: int| 0 <= t < ns.len() ==> crate::data::node_ok(reg, #[trigger] ns[t]),
        at(s, i, enc_nodes(reg, ns) + (nl(1) + seq![93u8])),
    ensures
        p_node_items(s, i, reg, acc) == PRes::<Seq<SnapshotNodeModel>>::Parsed(
            acc + ns,
            i + enc_nodes(reg, ns).len() + nl(1).len() + 1,
        ),
    decreases ns.len(),
{
    lemma_nl_ws(1);
    if ns.len() == 0 {
        assert(enc_nodes(reg, ns) + (nl(1) + seq![93u8]) =~= nl(1) + seq![93u8]);
        lemma_at_split(s, i, nl(1), seq![93u8]);
        assert forall|t: int| i <= t < i + nl(1).len() implies is_ws(#[trigger] s[t]) by {
            lemma_at_byte(s, i, nl(1), t - i);
        }
        lemma_at_byte(s, i + nl(1).len(), seq![93u8], 0);
        lemma_ws_run(s, i, nl(1).len() as int);
        assert(s[i + nl(1).len()] == 93);
        assert(acc + ns =~= acc);
    } else {
        let n0 = ns[0];
        let rest = ns.drop_first();
        let c1 = nl(2);
        let c2 = enc_node(reg, n0, 2);
        let c3 = seq![44u8];
        let c4 = enc_nodes(reg, rest);
        assert(enc_nodes(reg, ns) == c1 + c2 + c3 + c4);
        assert((c1 + c2 + c3 + c4) + (nl(1) + seq![93u8]) =~= c1 + (c2 + (c3 + (c4 + (nl(1)
            + seq![93u8])))));
        lemma_at_split(s, i, c1, c2 + (c3 + (c4 + (nl(1) + seq![93u8]))));
        let o1 = i + c1.len();
        lemma_at_split(s, o1, c2, c3 + (c4 + (nl(1) + seq![93u8])));
        let o2 = o1 + c2.len();
        lemma_at_split(s, o2, c3, c4 + (nl(1) + seq![93u8]));
        let o3 = o2 + 1;
        lemma_nl_ws(2);
        assert forall|t: int| i <= t < o1 implies is_ws(#[trigger] s[t]) by {
            lemma_at_byte(s, i, c1, t - i);
        }
        lemma_at_byte(s, o1, c2, 0);
        assert(s[o1] == 40);
        lemma_ws_run(s, i, c1.len() as int);
        lemma_p_node_at(s, o1, 0, reg, n0, 2);
        lemma_at_byte(s, o2, c3, 0);
        lemma_p_lit_at(s, o2, 0, c3);
        assert(forall|t: int|
            0 <= t < rest.len() ==> crate::data::node_ok(reg, #[trigger] rest[t]));
        lemma_p_node_items_at(s, o3, reg, rest, acc.push(n0));
        assert(acc.push(n0) + rest =~= acc + ns);
        assert(enc_nodes(reg, ns).len() == c1.len() + c2.len() + 1 + c4.len());
    }
}

#[verifier::rlimit(100)]
proof fn lemma_rt_chunks(reg: Seq<TypeEntryModel>, p: PrefabModel)
    ensures
        ({
            let s = enc_prefab(reg, p);
            let o1 = 1int;
            let o2 = o1 + nl(1).len() + lit_name().len();
            let o4 = o2 + 2 + enc_str(p.name).len();
            let o5 = o4 + 1;
            let o6 = o5 + nl(1).len() + lit_scene().len();
            let o7 = o6 + 3;
            let o8 = o7 + enc_nodes(reg, p.scene).len() + nl(1).len() + 1;
            &&& at(s, 0, seq![40u8])
            &&& at(s, o1, nl(1) + lit_name())
            &&& at(s, o2, seq![58u8])
            &&& at(s, o2 + 1, seq![32u8])
            &&& at(s, o2 + 2, enc_str(p.name))
            &&& at(s, o4, seq![44u8])
            &&& at(s, o5, nl(1) + lit_scene())
            &&& at(s, o6, seq![58u8])
            &&& at(s, o6 + 1, seq![32u8])
            &&& at(s, o6 + 2, seq![91u8])
            &&& at(s, o7, enc_nodes(reg, p.scene) + (nl(1) + seq![93u8]))
            &&& at(s, o8, seq![44u8])
            &&& at(s, o8 + 1, nl(0) + seq![41u8])
            &&& s.len() == o8 + 1 + nl(0).len() + 1
        }),
{
    let s = enc_prefab(reg, p);
    let c1 = seq![40u8];
    let c2 = nl(1);
    let c3 = lit_name();
    let c4 = seq![58u8, 32u8];
    let c5 = enc_str(p.name);
    let c6 = seq![44u8];
    let c7 = nl(1);
    let c8 = lit_scene();
    let c9 = seq![58u8, 32u8, 91u8];
    let c10 = enc_nodes(reg, p.scene);
    let c11 = nl(1);
    let c12 = seq![93u8, 44u8];
    let c13 = nl(0);
    let c14 = seq![41u8];
    let pre1 = c1;
    let pre2 = pre1 + c2;
    let pre3 = pre2 + c3;
    let pre4 = pre3 + c4;
    let pre5 = pre4 + c5;
    let pre6 = pre5 + c6;
    let pre7 = pre6 + c7;
    let pre8 = pre7 + c8;
    let pre9 = pre8 + c9;
    let pre10 = pre9 + c10;
    let pre11 = pre10 + c11;
    let pre12 = pre11 + c12;
    let pre13 = pre12 + c13;
    assert(s == pre13 + c14);
    assert(s.subrange(0, s.len() as int) =~= s);
    lemma_at_split(s, 0, pre13, c14);
    lemma_at_split(s, 0, pre12, c13);
    lemma_at_split(s, 0, pre11, c12);
    lemma_at_split(s, 0, pre10, c11);
    lemma_at_split(s, 0, pre9, c10);
    lemma_at_split(s, 0, pre8, c9);
    lemma_at_split(s, 0, pre7, c8);
    lemma_at_split(s, 0, pre6, c7);
    lemma_at_split(s, 0, pre5, c6);
    lemma_at_split(s, 0, pre4, c5);
    lemma_at_split(s, 0, pre3, c4);
    lemma_at_split(s, 0, pre2, c3);
    lemma_at_split(s, 0, pre1, c2);
    let o1 = 1int;
    let o2a = o1 + c2.len() + c3.len();
    let o3 = o2a + 2;
    let o4 = o3 + c5.len();
    let o5 = o4 + 1;
    let o6a = o5 + c7.len() + c8.len();
    let o7 = o6a + 3;
    lemma_at_join(s, o1, c2, c3);
    assert(c4 =~= seq![58u8] + seq![32u8]);
    lemma_at_split(s, o2a, seq![58u8], seq![32u8]);
    lemma_at_join(s, o5, c7, c8);
    assert(c9 =~= (seq![58u8] + seq![32u8]) + seq![91u8]);
    lemma_at_split(s, o6a, seq![58u8] + seq![32u8], seq![91u8]);
    lemma_at_split(s, o6a, seq![58u8], seq![32u8]);
    assert(c12 =~= seq![93u8] + seq![44u8]);
    lemma_at_split(s, o7 + c10.len() + c11.len(), seq![93u8], seq![44u8]);
    lemma_at_join(s, o7 + c10.len(), c11, seq![93u8]);
    lemma_at_join(s, o7, c10, c11 + seq![93u8]);
    lemma_at_join(s, o7 + c10.len() + c11.len() + 2, c13, c14);
}

#[verifier::rlimit(100)]
proof fn lemma_rt_head(reg: Seq<TypeEntryModel>, p: PrefabModel)
    ensures
        ({
            let s = enc_prefab(reg, p);
            let o1 = 1int;
            let o2 = o1 + nl(1).len() + lit_name().len();
            let o4 = o2 + 2 + enc_str(p.name).len();
            let o5 = o4 + 1;
            let o6 = o5 + nl(1).len() + lit_scene().len();
            let o7 = o6 + 3;
            &&& p_lit(s, 0, seq![40u8]) == PRes::<()>::Parsed((), o1)
            &&& p_lit(s, o1, lit_name()) == PRes::<()>::Parsed((), o2)
            &&& p_lit(s, o2, seq![58u8]) == PRes::<()>::Parsed((), o2 + 1)
            &&& p_str(s, o2 + 1) == PRes::<Seq<u8>>::Parsed(p.name, o4)
            &&& p_lit(s, o4, seq![44u8]) == PRes::<()>::Parsed((), o5)
            &&& p_lit(s, o5, lit_scene()) == PRes::<()>::Parsed((), o6)
            &&& p_lit(s, o6, seq![58u8]) == PRes::<()>::Parsed((), o6 + 1)
            &&& p_lit(s, o6 + 1, seq![91u8]) == PRes::<()>::Parsed((), o7)
            &&& at(s, o7, enc_nodes(reg, p.scene) + (nl(1) + seq![93u8]))
            &&& at(s, o7 + enc_nodes(reg, p.scene).len() + nl(1).len() + 1, seq![44u8])
            &&& at(s, o7 + enc_nodes(reg, p.scene).len() + nl(1).len() + 2, nl(0) + seq![41u8])
            &&& s.len() == o7 + enc_nodes(reg, p.scene).len() + nl(1).len() + 2 + nl(0).len() + 1
        }),
{
    let s = enc_prefab(reg, p);
    lemma_rt_chunks(reg, p);
    let o1 = 1int;
    let o2 = o1 + nl(1).len() + lit_name().len();
    let o4 = o2 + 2 + enc_str(p.name).len();
    let o5 = o4 + 1;
    let o6 = o5 + nl(1).len() + lit_scene().len();
    let o7 = o6 + 3;
    lemma_at_byte(s, 0, seq![40u8], 0);
    lemma_p_lit_at(s, 0, 0, seq![40u8]);
    lemma_p_lit_nl_at(s, o1, 1, lit_name());
    lemma_at_byte(s, o2, seq![58u8], 0);
    lemma_p_lit_at(s, o2, 0, seq![58u8]);
    lemma_at_byte(s, o2 + 1, seq![32u8], 0);
    assert forall|t: int| o2 + 1 <= t < o2 + 2 implies is_ws(#[trigger] s[t]) by {
        assert(t == o2 + 1);
    }
    lemma_p_str_at(s, o2 + 1, 1, p.name);
    lemma_at_byte(s, o4, seq![44u8], 0);
    lemma_p_lit_at(s, o4, 0, seq![44u8]);
    lemma_p_lit_nl_at(s, o5, 1, lit_scene());
    lemma_at_byte(s, o6, seq![58u8], 0);
    lemma_p_lit_at(s, o6, 0, seq![58u8]);
    lemma_at_byte(s, o6 + 1, seq![32u8], 0);
    lemma_at_byte(s, o6 + 2, seq![91u8], 0);
    assert forall|t: int| o6 + 1 <= t < o6 + 2 implies is_ws(#[trigger] s[t]) by {
        assert(t == o6 + 1);
    }
    lemma_p_lit_at(s, o6 + 1, 1, seq![91u8]);
}

/// Law: round trip.  For any prefab every record of which is encodable
/// under the registry, parsing the document the serializer emits gives back
/// exactly that prefab, consuming the whole text.  Together with the
/// contracts of `serialize` and `deserialize`, decoding an encoded prefab
/// returns it unchanged: name and snapshot contents are equal.
#[verifier::rlimit(100)]
pub proof fn lemma_round_trip(reg: Seq<TypeEntryModel>, p: PrefabModel)
    requires
        prefab_ok(reg, p),
    ensures
        p_prefab(enc_prefab(reg, p), reg) == PRes::<PrefabModel>::Parsed(
            p,
            enc_prefab(reg, p).len() as int,
        ),
{
    let s = enc_prefab(reg, p);
    lemma_rt_head(reg, p);
    let o1 = 1int;
    let o2 = o1 + nl(1).len() + lit_name().len();
    let o4 = o2 + 2 + enc_str(p.name).len();
    let o5 = o4 + 1;
    let o6 = o5 + nl(1).len() + lit_scene().len();
    let o7 = o6 + 3;
    let c10 = enc_nodes(reg, p.scene);
    lemma_p_node_items_at(s, o7, reg, p.scene, Seq::empty());
    assert(Seq::<SnapshotNodeModel>::empty() + p.scene =~= p.scene);
    let o8 = o7 + c10.len() + nl(1).len() + 1;
    lemma_at_byte(s, o8, seq![44u8], 0);
    lemma_p_lit_at(s, o8, 0, seq![44u8]);
    let o9 = o8 + 1;
    lemma_p_lit_nl_at(s, o9, 0, seq![41u8]);
    let o10 = o9 + nl(0).len() + 1;
    assert(o10 == s.len());
    assert(skip_ws(s, o10) == o10);
    assert(PrefabModel { name: p.name, scene: p.scene } == p);
}

} // verus!
