//! The laws the codec obeys, proved once and for all.
//!
//! The central statement is the round trip: a value that fits a
//! well-formed shape encodes successfully, the wire value advertises the
//! shape's static type and is well-formed, and decoding it at the same
//! shape gives the original value back.  Sequences whose element shape is
//! a fixed-width primitive go through the packed fast path, so the round
//! trip asks that such elements be the plain scalar shapes themselves.

use crate::deserializer::{
    spec_decode, spec_decode_entries, spec_decode_enum, spec_decode_fields, spec_decode_list,
    spec_decode_payload, spec_find_disc, spec_find_name, spec_resolve_tag, spec_unbytes,
    wire_int,
};
use crate::error::ErrorV;
use crate::serializer::{
    bytes_wire, spec_encode, spec_encode_fields, spec_encode_fixed, spec_encode_list,
    spec_encode_pairs, spec_encode_payload, spec_encode_str, spec_int_at_width, spec_make_tag,
    spec_value_bits, ty_matches,
};
use crate::shape::{EnumShapeV, PayloadShapeV, ShapeV, VariantShapeV};
use crate::ty::TyV;
use crate::value::{PayloadValueV, ValueV};
use crate::variant::VariantV;
use crate::variant_type::{child_or_default, NodeV, ReprWidth, TagMode};
use vstd::prelude::*;

verus! {

/// The element shapes that the packed fast path reads directly: the nine
/// plain fixed-width scalars.
pub open spec fn plain_packed(s: ShapeV) -> bool {
    match s {
        ShapeV::Bool | ShapeV::I16 | ShapeV::I32 | ShapeV::I64 | ShapeV::U8 | ShapeV::U16
        | ShapeV::U32 | ShapeV::U64 | ShapeV::F64 => true,
        _ => false,
    }
}

/// Every sequence element shape whose static type is fixed-width is one
/// of the plain scalars, everywhere in the shape.  A wrapper or an
/// 8-bit signed element inside a packed array cannot be read by the fast
/// path, and is rejected by the encoder.
pub open spec fn packable(s: ShapeV) -> bool
    decreases s,
{
    match s {
        ShapeV::Opt(e) => packable(*e),
        ShapeV::List(e) => (e.ty().is_fixed_width() ==> plain_packed(*e)) && packable(*e),
        ShapeV::Tup(ss) => all_packable(ss),
        ShapeV::MapOf(k, v) => packable(*k) && packable(*v),
        ShapeV::Newtype(e) => packable(*e),
        ShapeV::Enum(es) => variants_packable(es.variants),
        _ => true,
    }
}

/// Every shape in the sequence is packable.
pub open spec fn all_packable(ss: Seq<ShapeV>) -> bool
    decreases ss,
{
    if ss.len() == 0 {
        true
    } else {
        packable(ss[0]) && all_packable(ss.subrange(1, ss.len() as int))
    }
}

/// Every variant's payload is packable.
pub open spec fn variants_packable(vs: Seq<VariantShapeV>) -> bool
    decreases vs,
{
    if vs.len() == 0 {
        true
    } else {
        payload_packable(vs[0].payload) && variants_packable(vs.subrange(1, vs.len() as int))
    }
}

/// A payload's field shapes are packable.
pub open spec fn payload_packable(ps: PayloadShapeV) -> bool
    decreases ps,
{
    match ps {
        PayloadShapeV::Unit => true,
        PayloadShapeV::Newtype(e) => packable(*e),
        PayloadShapeV::Fields(ss) => all_packable(ss),
    }
}

/// `all_packable` holds exactly when each shape is packable.
pub proof fn lemma_all_packable(ss: Seq<ShapeV>)
    ensures
        all_packable(ss) <==> (forall|i: int| 0 <= i < ss.len() ==> #[trigger] packable(ss[i])),
    decreases ss,
{
    if ss.len() > 0 {
        let tail = ss.subrange(1, ss.len() as int);
        lemma_all_packable(tail);
        if all_packable(ss) {
            assert forall|i: int| 0 <= i < ss.len() implies #[trigger] packable(ss[i]) by {
                if i >= 1 {
                    assert(ss[i] == tail[i - 1]);
                }
            }
        }
        if forall|i: int| 0 <= i < ss.len() ==> #[trigger] packable(ss[i]) {
            assert forall|i: int| 0 <= i < tail.len() implies #[trigger] packable(tail[i]) by {
                assert(tail[i] == ss[i + 1]);
            }
            assert(packable(ss[0]));
            assert(all_packable(ss));
        }
    }
}

/// `variants_packable` holds exactly when each payload is packable.
pub proof fn lemma_variants_packable(vs: Seq<VariantShapeV>)
    ensures
        variants_packable(vs) <==> (forall|i: int|
            0 <= i < vs.len() ==> #[trigger] payload_packable(vs[i].payload)),
    decreases vs,
{
    if vs.len() > 0 {
        let tail = vs.subrange(1, vs.len() as int);
        lemma_variants_packable(tail);
        if variants_packable(vs) {
            assert forall|i: int| 0 <= i < vs.len() implies #[trigger] payload_packable(
                vs[i].payload,
            ) by {
                if i >= 1 {
                    assert(vs[i] == tail[i - 1]);
                }
            }
        }
        if forall|i: int| 0 <= i < vs.len() ==> #[trigger] payload_packable(vs[i].payload) {
            assert forall|i: int| 0 <= i < tail.len() implies #[trigger] payload_packable(
                tail[i].payload,
            ) by {
                assert(tail[i] == vs[i + 1]);
            }
            assert(payload_packable(vs[0].payload));
            assert(variants_packable(vs));
        }
    }
}

/// The static type of every shape is definite: shapes never contain the
/// wildcard.
pub proof fn lemma_shape_ty_definite(s: ShapeV)
    ensures
        s.ty().is_definite(),
    decreases s, 1int,
{
    match s {
        ShapeV::Opt(e) => {
            lemma_shape_ty_definite(*e);
        },
        ShapeV::List(e) => {
            lemma_shape_ty_definite(*e);
        },
        ShapeV::Tup(ss) => {
            lemma_shapes_tys_definite(ss);
            TyV::lemma_all_definite(ShapeV::tys(ss));
        },
        ShapeV::MapOf(k, v) => {
            lemma_shape_ty_definite(*k);
            lemma_shape_ty_definite(*v);
            assert(TyV::Entry(Box::new(k.ty()), Box::new(v.ty())).is_definite());
        },
        ShapeV::Newtype(e) => {
            lemma_shape_ty_definite(*e);
        },
        ShapeV::Enum(es) => {
            if EnumShapeV::all_unit(es.variants) {
            } else {
                let pair = seq![es.tag.tag_ty(), TyV::Var];
                assert(s.ty() == TyV::Tuple(pair));
                TyV::lemma_all_definite(pair);
                assert(forall|i: int| 0 <= i < 2 ==> #[trigger] pair[i].is_definite()) by {
                    assert(pair[0] == es.tag.tag_ty());
                    assert(pair[1] == TyV::Var);
                }
            }
        },
        ShapeV::Unit => {
            TyV::lemma_all_definite(Seq::<TyV>::empty());
        },
        ShapeV::Bytes => {
            assert(TyV::Byte.is_definite());
        },
        _ => {},
    }
}

/// Each rendered field type of a tuple shape is definite.
pub proof fn lemma_shapes_tys_definite(ss: Seq<ShapeV>)
    ensures
        forall|i: int| 0 <= i < ShapeV::tys(ss).len() ==> #[trigger] ShapeV::tys(
            ss,
        )[i].is_definite(),
    decreases ss, 0int,
{
    ShapeV::lemma_tys(ss);
    assert forall|i: int| 0 <= i < ShapeV::tys(ss).len() implies #[trigger] ShapeV::tys(
        ss,
    )[i].is_definite() by {
        lemma_shape_ty_definite(ss[i]);
    }
}

/// The static type of a well-formed shape is well-formed: dictionary
/// entries are keyed by basic types.
pub proof fn lemma_shape_ty_wf(s: ShapeV)
    requires
        s.wf(),
    ensures
        s.ty().wf(),
    decreases s, 1int,
{
    match s {
        ShapeV::Opt(e) => {
            lemma_shape_ty_wf(*e);
        },
        ShapeV::List(e) => {
            lemma_shape_ty_wf(*e);
        },
        ShapeV::Tup(ss) => {
            lemma_shapes_tys_wf(ss);
            TyV::lemma_all_wf(ShapeV::tys(ss));
        },
        ShapeV::MapOf(k, v) => {
            lemma_shape_ty_wf(*k);
            lemma_shape_ty_wf(*v);
            assert(TyV::Entry(Box::new(k.ty()), Box::new(v.ty())).wf());
        },
        ShapeV::Newtype(e) => {
            lemma_shape_ty_wf(*e);
        },
        ShapeV::Enum(es) => {
            if EnumShapeV::all_unit(es.variants) {
            } else {
                let pair = seq![es.tag.tag_ty(), TyV::Var];
                assert(s.ty() == TyV::Tuple(pair));
                TyV::lemma_all_wf(pair);
                assert(forall|i: int| 0 <= i < 2 ==> #[trigger] pair[i].wf()) by {
                    assert(pair[0] == es.tag.tag_ty());
                    assert(pair[1] == TyV::Var);
                }
            }
        },
        ShapeV::Unit => {
            TyV::lemma_all_wf(Seq::<TyV>::empty());
        },
        ShapeV::Bytes => {
            assert(TyV::Byte.wf());
        },
        _ => {},
    }
}

/// Each rendered field type of a well-formed tuple shape is well-formed.
pub proof fn lemma_shapes_tys_wf(ss: Seq<ShapeV>)
    requires
        ShapeV::all_wf(ss),
    ensures
        forall|i: int| 0 <= i < ShapeV::tys(ss).len() ==> #[trigger] ShapeV::tys(ss)[i].wf(),
    decreases ss, 0int,
{
    ShapeV::lemma_tys(ss);
    ShapeV::lemma_all_wf(ss);
    assert forall|i: int| 0 <= i < ShapeV::tys(ss).len() implies #[trigger] ShapeV::tys(
        ss,
    )[i].wf() by {
        lemma_shape_ty_wf(ss[i]);
    }
}

/// The wire array that carries a byte sequence: each child is a byte,
/// well-formed, and the bytes read back.
pub proof fn lemma_bytes_wire(bs: Seq<u8>)
    ensures
        bytes_wire(bs).len() == bs.len(),
        VariantV::all_wf(bytes_wire(bs)),
        VariantV::all_of_ty(bytes_wire(bs), TyV::Byte),
        spec_unbytes(bytes_wire(bs)) == Ok::<Seq<u8>, ErrorV>(bs),
    decreases bs,
{
    VariantV::lemma_all_wf(bytes_wire(bs));
    VariantV::lemma_all_of_ty(bytes_wire(bs), TyV::Byte);
    if bs.len() == 0 {
        assert(bytes_wire(bs) =~= Seq::<VariantV>::empty());
        assert(spec_unbytes(Seq::<VariantV>::empty()) == Ok::<Seq<u8>, ErrorV>(
            Seq::<u8>::empty(),
        ));
        assert(bs =~= Seq::<u8>::empty());
    } else {
        lemma_bytes_wire(bs.drop_last());
        VariantV::lemma_all_wf(bytes_wire(bs.drop_last()));
        VariantV::lemma_all_of_ty(bytes_wire(bs.drop_last()), TyV::Byte);
        lemma_unbytes_snoc(bs.drop_last(), bs.last());
        assert(bs.drop_last().push(bs.last()) =~= bs);
    }
}

/// Reading bytes back commutes with appending one byte.
pub proof fn lemma_unbytes_snoc(bs: Seq<u8>, b: u8)
    requires
        spec_unbytes(bytes_wire(bs)) == Ok::<Seq<u8>, ErrorV>(bs),
    ensures
        spec_unbytes(bytes_wire(bs).push(VariantV::Byte(b))) == Ok::<Seq<u8>, ErrorV>(
            bs.push(b),
        ),
    decreases bs.len(),
{
    let ws = bytes_wire(bs);
    if bs.len() == 0 {
        assert(ws =~= Seq::<VariantV>::empty());
        let one = ws.push(VariantV::Byte(b));
        assert(one[0] == VariantV::Byte(b));
        assert(one.subrange(1, one.len() as int) =~= Seq::<VariantV>::empty());
        assert(spec_unbytes(Seq::<VariantV>::empty()) == Ok::<Seq<u8>, ErrorV>(
            Seq::<u8>::empty(),
        ));
        assert(seq![b] + Seq::<u8>::empty() =~= seq![b]);
        assert(spec_unbytes(one) == Ok::<Seq<u8>, ErrorV>(seq![b]));
        assert(bs.push(b) =~= seq![b]);
    } else {
        let head = ws[0];
        assert(bytes_wire(bs).len() == bs.len()) by {
            lemma_bytes_wire_len(bs);
        }
        assert(spec_unbytes(ws) is Ok);
        assert(head is Byte);
        let tail = ws.subrange(1, ws.len() as int);
        let bs_tail = spec_unbytes(tail)->Ok_0;
        assert(spec_unbytes(tail) is Ok && seq![head->Byte_0] + bs_tail == bs);
        assert(bs[0] == head->Byte_0);
        let whole = ws.push(VariantV::Byte(b));
        assert(whole[0] == head);
        assert(whole.subrange(1, whole.len() as int) =~= tail.push(VariantV::Byte(b)));
        lemma_unbytes_of_tail(tail, bs_tail, b);
        assert(spec_unbytes(whole) == Ok::<Seq<u8>, ErrorV>(
            seq![head->Byte_0] + bs_tail.push(b),
        ));
        assert(seq![head->Byte_0] + bs_tail.push(b) =~= bs.push(b));
    }
}

/// Helper: appending a byte to a sequence whose reading is known.
pub proof fn lemma_unbytes_of_tail(tail: Seq<VariantV>, bs_tail: Seq<u8>, b: u8)
    requires
        spec_unbytes(tail) == Ok::<Seq<u8>, ErrorV>(bs_tail),
    ensures
        spec_unbytes(tail.push(VariantV::Byte(b))) == Ok::<Seq<u8>, ErrorV>(bs_tail.push(b)),
    decreases tail.len(),
{
    if tail.len() == 0 {
        let one = tail.push(VariantV::Byte(b));
        assert(one[0] == VariantV::Byte(b));
        assert(one.subrange(1, one.len() as int) =~= Seq::<VariantV>::empty());
        assert(spec_unbytes(Seq::<VariantV>::empty()) == Ok::<Seq<u8>, ErrorV>(
            Seq::<u8>::empty(),
        ));
        assert(seq![b] + Seq::<u8>::empty() =~= seq![b]);
        assert(bs_tail =~= Seq::<u8>::empty());
        assert(spec_unbytes(one) == Ok::<Seq<u8>, ErrorV>(seq![b]));
        assert(bs_tail.push(b) =~= seq![b]);
    } else {
        assert(tail[0] is Byte);
        let t2 = tail.subrange(1, tail.len() as int);
        let bs2 = spec_unbytes(t2)->Ok_0;
        assert(spec_unbytes(t2) is Ok && seq![tail[0]->Byte_0] + bs2 == bs_tail);
        lemma_unbytes_of_tail(t2, bs2, b);
        let whole = tail.push(VariantV::Byte(b));
        assert(whole[0] == tail[0]);
        assert(whole.subrange(1, whole.len() as int) =~= t2.push(VariantV::Byte(b)));
        assert(spec_unbytes(whole) == Ok::<Seq<u8>, ErrorV>(
            seq![tail[0]->Byte_0] + bs2.push(b),
        ));
        assert(seq![tail[0]->Byte_0] + bs2.push(b) =~= bs_tail.push(b));
    }
}

/// The length of a byte sequence's wire form.
pub proof fn lemma_bytes_wire_len(bs: Seq<u8>)
    ensures
        bytes_wire(bs).len() == bs.len(),
    decreases bs,
{
    if bs.len() > 0 {
        lemma_bytes_wire_len(bs.drop_last());
    }
}

/// An integer written at a tag width reads back unchanged, has the
/// width's wire type, is well-formed, and is no container.
pub proof fn lemma_int_at_width(w: ReprWidth, x: int)
    requires
        w.fits(x),
    ensures
        wire_int(spec_int_at_width(w, x)) == Some(x),
        spec_int_at_width(w, x).ty() == w.tag_ty(),
        spec_int_at_width(w, x).wf(),
        !(spec_int_at_width(w, x) is Tuple),
{
}

/// With distinct names, looking a variant's own name up finds exactly
/// that variant.
pub proof fn lemma_find_name_exact(vs: Seq<VariantShapeV>, i: int, at: int)
    requires
        0 <= at <= i < vs.len(),
        forall|a: int, b: int|
            0 <= a < b < vs.len() ==> (#[trigger] vs[a].name) != (#[trigger] vs[b].name),
    ensures
        spec_find_name(vs, vs[i].name, at) == Some(i),
    decreases i - at,
{
    if at < i {
        assert(vs[at].name != vs[i].name);
        lemma_find_name_exact(vs, i, at + 1);
    }
}

/// With distinct discriminants, looking a variant's own discriminant up
/// finds exactly that variant.
pub proof fn lemma_find_disc_exact(vs: Seq<VariantShapeV>, i: int, at: int)
    requires
        0 <= at <= i < vs.len(),
        forall|a: int, b: int|
            0 <= a < b < vs.len() ==> (#[trigger] vs[a].disc) != (#[trigger] vs[b].disc),
    ensures
        spec_find_disc(vs, vs[i].disc as int, at) == Some(i),
    decreases i - at,
{
    if at < i {
        assert(vs[at].disc != vs[i].disc);
        lemma_find_disc_exact(vs, i, at + 1);
    }
}

/// The round trip (encode, then decode at the same shape).  A value that
/// fits a well-formed, packable shape encodes successfully; the wire
/// value advertises the shape's static type and is well-formed; and
/// decoding it at the same shape returns the original value.
pub proof fn lemma_round_trip(v: ValueV, sh: ShapeV)
    requires
        v.matches(sh),
        sh.wf(),
        packable(sh),
    ensures
        spec_encode(v, sh.node()) is Ok,
        spec_encode(v, sh.node())->Ok_0.ty() == sh.ty(),
        spec_encode(v, sh.node())->Ok_0.wf(),
        spec_decode(spec_encode(v, sh.node())->Ok_0, sh) == Ok::<ValueV, ErrorV>(v),
    decreases v, 0int,
{
    crate::shape::lemma_node_ty(sh);
    match v {
        ValueV::Bool(_) => {},
        ValueV::I8(_) => {},
        ValueV::I16(_) => {},
        ValueV::I32(_) => {},
        ValueV::I64(_) => {},
        ValueV::U8(_) => {},
        ValueV::U16(_) => {},
        ValueV::U32(_) => {},
        ValueV::U64(_) => {},
        ValueV::F64(_) => {},
        ValueV::Char(c) => {
            assert(sh == ShapeV::Char);
            assert(sh.node() == NodeV::leaf(TyV::Str));
            assert(spec_encode(v, sh.node()) == spec_encode_str(seq![c], TyV::Str));
            let w = VariantV::Str(seq![c]);
            assert(spec_encode(v, sh.node()) == Ok::<VariantV, ErrorV>(w));
            assert(seq![c].len() == 1);
            assert(seq![c][0] == c);
        },
        ValueV::Str(_) => {},
        ValueV::Path(_) => {},
        ValueV::Sig(_) => {},
        ValueV::Bytes(bs) => {
            lemma_bytes_wire(bs);
            let w = VariantV::Array { elem: TyV::Byte, items: bytes_wire(bs) };
            assert(w.ty() == TyV::Array(Box::new(TyV::Byte)));
            assert(TyV::Byte.wf() && TyV::Byte.is_definite());
            assert(w.wf());
        },
        ValueV::Unit => {
            let w = VariantV::Tuple(Seq::<VariantV>::empty());
            assert(VariantV::all_wf(Seq::<VariantV>::empty()));
            assert(VariantV::tys(Seq::<VariantV>::empty()) =~= Seq::<TyV>::empty());
            assert(w.ty() == TyV::Tuple(Seq::<TyV>::empty()));
        },
        ValueV::OptNone => {
            let e = sh->Opt_0;
            assert(sh.node().child_tys == seq![e.node()]);
            assert(child_or_default(sh.node(), 0) == e.node());
            crate::shape::lemma_node_ty(*e);
            lemma_shape_ty_definite(*e);
            lemma_shape_ty_wf(*e);
            let w = VariantV::Maybe { elem: e.ty(), inner: None };
            assert(spec_encode(v, sh.node()) == Ok::<VariantV, ErrorV>(w));
            assert(w.wf());
        },
        ValueV::OptSome(x) => {
            let e = sh->Opt_0;
            assert(sh.node().child_tys == seq![e.node()]);
            assert(child_or_default(sh.node(), 0) == e.node());
            crate::shape::lemma_node_ty(*e);
            lemma_shape_ty_definite(*e);
            lemma_shape_ty_wf(*e);
            lemma_round_trip(*x, *e);
            let wx = spec_encode(*x, e.node())->Ok_0;
            assert(ty_matches(wx.ty(), e.node().ty));
            let w = VariantV::Maybe { elem: wx.ty(), inner: Some(Box::new(wx)) };
            assert(spec_encode(v, sh.node()) == Ok::<VariantV, ErrorV>(w));
            assert(w.wf());
        },
        ValueV::List(items) => {
            let e = sh->List_0;
            assert(sh.node().ty == TyV::Array(Box::new(e.ty())));
            assert(sh.node().child_tys == seq![e.node()]);
            assert(child_or_default(sh.node(), 0) == e.node());
            crate::shape::lemma_node_ty(*e);
            lemma_shape_ty_definite(*e);
            lemma_shape_ty_wf(*e);
            ValueV::lemma_list_matches(items, *e);
            if e.ty().is_fixed_width() {
                assert(plain_packed(*e));
                lemma_rt_fixed(items, *e);
                let ws = spec_encode_fixed(items, e.ty())->Ok_0;
                let w = VariantV::Array { elem: e.ty(), items: ws };
                VariantV::lemma_all_wf(ws);
                VariantV::lemma_all_of_ty(ws, e.ty());
                assert(spec_encode(v, sh.node()) == Ok::<VariantV, ErrorV>(w));
                assert(w.wf());
            } else {
                lemma_rt_list(items, *e);
                let ws = spec_encode_list(items, e.node(), e.ty())->Ok_0;
                let w = VariantV::Array { elem: e.ty(), items: ws };
                VariantV::lemma_all_wf(ws);
                VariantV::lemma_all_of_ty(ws, e.ty());
                assert(spec_encode(v, sh.node()) == Ok::<VariantV, ErrorV>(w));
                assert(w.wf());
            }
        },
        ValueV::Tup(xs) => {
            let ss = sh->Tup_0;
            assert(sh.node().ty == TyV::Tuple(ShapeV::tys(ss)));
            assert(sh.node().child_tys == ShapeV::nodes(ss));
            ValueV::lemma_fields_match(xs, ss);
            ShapeV::lemma_tys(ss);
            lemma_rt_fields(xs, ss, sh.node(), 0);
            assert(xs.subrange(0, xs.len() as int) =~= xs);
            assert(ss.subrange(0, ss.len() as int) =~= ss);
            let ws = spec_encode_fields(xs, sh.node(), 0)->Ok_0;
            let w = VariantV::Tuple(ws);
            VariantV::lemma_all_wf(ws);
            VariantV::lemma_tys(ws);
            assert(VariantV::tys(ws) =~= ShapeV::tys(ss));
            assert(spec_encode(v, sh.node()) == Ok::<VariantV, ErrorV>(w));
            assert(w.ty() == sh.ty());
        },
        ValueV::MapOf(pairs) => {
            let k = sh->MapOf_0;
            let kv = sh->MapOf_1;
            let elem = TyV::Entry(Box::new(k.ty()), Box::new(kv.ty()));
            assert(sh.node().ty == TyV::Array(Box::new(elem)));
            assert(sh.node().child_tys == seq![k.node(), kv.node()]);
            assert(child_or_default(sh.node(), 0) == k.node());
            assert(child_or_default(sh.node(), 1) == kv.node());
            ValueV::lemma_pairs_match(pairs, *k, *kv);
            lemma_shape_ty_definite(*k);
            lemma_shape_ty_definite(*kv);
            lemma_shape_ty_wf(*k);
            lemma_shape_ty_wf(*kv);
            lemma_rt_pairs(pairs, *k, *kv, k.node(), kv.node());
            let ws = spec_encode_pairs(pairs, k.node(), kv.node(), elem)->Ok_0;
            let w = VariantV::Array { elem, items: ws };
            VariantV::lemma_all_wf(ws);
            VariantV::lemma_all_of_ty(ws, elem);
            assert(elem.is_definite() && elem.wf());
            assert(spec_encode(v, sh.node()) == Ok::<VariantV, ErrorV>(w));
            assert(w.wf());
        },
        ValueV::Newtype(x) => {
            let e = sh->Newtype_0;
            assert(sh.node() == e.node());
            lemma_round_trip(*x, *e);
            assert(spec_encode(v, sh.node()) == spec_encode(*x, e.node()));
        },
        ValueV::EnumVal { index, payload } => {
            let es = sh->Enum_0;
            lemma_rt_enum(index, payload, es);
        },
        ValueV::Wire(wv) => {
            assert(sh == ShapeV::Wire);
            let w = VariantV::Boxed(Box::new(wv));
            assert(spec_encode(v, sh.node()) == Ok::<VariantV, ErrorV>(w));
            assert(w.wf());
        },
    }
}

/// The round trip of one enum value.
#[verifier::rlimit(80)]
pub proof fn lemma_rt_enum(index: u32, payload: PayloadValueV, es: EnumShapeV)
    requires
        (ValueV::EnumVal { index, payload }).matches(ShapeV::Enum(es)),
        ShapeV::Enum(es).wf(),
        packable(ShapeV::Enum(es)),
    ensures
        (spec_encode(ValueV::EnumVal { index, payload }, ShapeV::Enum(es).node()) is Ok),
        spec_encode(ValueV::EnumVal { index, payload }, ShapeV::Enum(es).node())->Ok_0.ty()
            == ShapeV::Enum(es).ty(),
        spec_encode(ValueV::EnumVal { index, payload }, ShapeV::Enum(es).node())->Ok_0.wf(),
        spec_decode(
            spec_encode(ValueV::EnumVal { index, payload }, ShapeV::Enum(es).node())->Ok_0,
            ShapeV::Enum(es),
        ) == (Ok::<ValueV, ErrorV>(ValueV::EnumVal { index, payload })),
    decreases payload, 1int,
{
    let sh = ShapeV::Enum(es);
    let v = ValueV::EnumVal { index, payload };
    let n = sh.node();
    let scheme = es.scheme();
    assert(es.wf());
    EnumShapeV::lemma_variants_wf(es.variants);
    lemma_variants_packable(es.variants);
    assert(es.variants[index as int].payload.wf());
    assert(payload_packable(es.variants[index as int].payload));
    assert(n.tag == Some(scheme));
    assert(scheme.variants.len() == es.variants.len());
    assert(scheme.variants[index as int].name == es.variants[index as int].name);
    assert(scheme.variants[index as int].disc == es.variants[index as int].disc);
    let entry = scheme.variants[index as int];
    // The tag encodes and reads back to the same declaration index.
    let tag_res = spec_make_tag(scheme.mode, index, entry.name, entry.disc);
    assert(tag_res is Ok) by {
        match scheme.mode {
            TagMode::Name => {},
            TagMode::Ordinal(w) => {
                assert(w.fits(index as int));
            },
            TagMode::Repr(w) => {
                assert(w.fits(entry.disc as int));
            },
        }
    }
    let tag = tag_res->Ok_0;
    assert({
        &&& wire_int(tag) is Some || tag is Str
        &&& tag.ty() == es.tag.tag_ty()
        &&& tag.wf()
        &&& !(tag is Tuple)
        &&& spec_resolve_tag(tag, es) == Ok::<u32, ErrorV>(index)
    }) by {
        match scheme.mode {
            TagMode::Name => {
                assert(tag == VariantV::Str(entry.name));
                assert(forall|a: int, b: int|
                    0 <= a < b < es.variants.len() ==> (#[trigger] es.variants[a].name) != (
                    #[trigger] es.variants[b].name));
                lemma_find_name_exact(es.variants, index as int, 0);
            },
            TagMode::Ordinal(w) => {
                lemma_int_at_width(w, index as int);
                assert(wire_int(tag) == Some(index as int));
            },
            TagMode::Repr(w) => {
                lemma_int_at_width(w, entry.disc as int);
                assert(wire_int(tag) == Some(entry.disc as int));
                assert(forall|a: int, b: int|
                    0 <= a < b < es.variants.len() ==> (#[trigger] es.variants[a].disc) != (
                    #[trigger] es.variants[b].disc));
                lemma_find_disc_exact(es.variants, index as int, 0);
            },
        }
    }
    if EnumShapeV::all_unit(es.variants) {
        EnumShapeV::lemma_all_unit(es.variants);
        assert(es.variants[index as int].payload is Unit);
        assert(payload.matches(es.variants[index as int].payload));
        assert(payload is Unit);
        assert(n.ty == es.tag.tag_ty());
        assert(!(n.ty is Tuple)) by {
            match scheme.mode {
                TagMode::Name => {},
                TagMode::Ordinal(w) => {},
                TagMode::Repr(w) => {},
            }
        }
        assert(spec_encode(v, n) == Ok::<VariantV, ErrorV>(tag));
        assert(!(tag is Tuple));
        assert(spec_decode_enum(tag, es) == Ok::<ValueV, ErrorV>(v));
    } else {
        assert(n.ty == TyV::Tuple(seq![es.tag.tag_ty(), TyV::Var]));
        assert(n.child_tys == EnumShapeV::payload_nodes(es.variants));
        EnumShapeV::lemma_payload_nodes(es.variants);
        assert(child_or_default(n, index as int) == es.variants[index as int].payload.node());
        let pc = es.variants[index as int].payload.node();
        let ps = es.variants[index as int].payload;
        crate::shape::lemma_payload_node_ty(ps);
        lemma_rt_payload(payload, ps);
        let pw = spec_encode_payload(payload, pc)->Ok_0;
        let w = VariantV::Tuple(seq![tag, VariantV::Boxed(Box::new(pw))]);
        assert(spec_encode(v, n) == Ok::<VariantV, ErrorV>(w));
        // type and well-formedness of the wrapper
        let pair = seq![tag, VariantV::Boxed(Box::new(pw))];
        VariantV::lemma_tys(pair);
        assert(VariantV::tys(pair) =~= seq![tag.ty(), TyV::Var]);
        assert(w.ty() == TyV::Tuple(seq![tag.ty(), TyV::Var]));
        assert(w.ty() == sh.ty());
        VariantV::lemma_all_wf(pair);
        assert(forall|i: int| 0 <= i < pair.len() ==> #[trigger] pair[i].wf()) by {
            assert(pair[0] == tag);
            assert(pair[1] == VariantV::Boxed(Box::new(pw)));
        }
        assert(w.wf());
        // decoding
        assert(pair.len() == 2);
        assert(pair[1] == VariantV::Boxed(Box::new(pw)));
        assert(pair[0] == tag);
        assert(spec_resolve_tag(pair[0], es) == Ok::<u32, ErrorV>(index));
        assert(spec_decode_payload(pw, ps) == Ok::<PayloadValueV, ErrorV>(payload));
        assert(spec_decode_enum(w, es) == Ok::<ValueV, ErrorV>(v));
    }
    assert(spec_decode(spec_encode(v, n)->Ok_0, sh) == spec_decode_enum(
        spec_encode(v, n)->Ok_0,
        es,
    ));
}

/// The round trip of one variant payload.
pub proof fn lemma_rt_payload(p: PayloadValueV, ps: PayloadShapeV)
    requires
        p.matches(ps),
        ps.wf(),
        payload_packable(ps),
    ensures
        spec_encode_payload(p, ps.node()) is Ok,
        spec_encode_payload(p, ps.node())->Ok_0.ty() == ps.ty(),
        spec_encode_payload(p, ps.node())->Ok_0.wf(),
        spec_decode_payload(spec_encode_payload(p, ps.node())->Ok_0, ps) == Ok::<
            PayloadValueV,
            ErrorV,
        >(p),
    decreases p, 0int,
{
    match p {
        PayloadValueV::Unit => {
            assert(VariantV::all_wf(Seq::<VariantV>::empty()));
            assert(VariantV::tys(Seq::<VariantV>::empty()) =~= Seq::<TyV>::empty());
        },
        PayloadValueV::Newtype(x) => {
            let e = ps->Newtype_0;
            lemma_round_trip(*x, *e);
            crate::shape::lemma_node_ty(*e);
        },
        PayloadValueV::Fields(xs) => {
            let ss = ps->Fields_0;
            assert(ps.node().ty == TyV::Tuple(ShapeV::tys(ss)));
            assert(ps.node().child_tys == ShapeV::nodes(ss));
            ValueV::lemma_fields_match(xs, ss);
            ShapeV::lemma_tys(ss);
            lemma_rt_fields(xs, ss, ps.node(), 0);
            assert(xs.subrange(0, xs.len() as int) =~= xs);
            assert(ss.subrange(0, ss.len() as int) =~= ss);
            let ws = spec_encode_fields(xs, ps.node(), 0)->Ok_0;
            VariantV::lemma_all_wf(ws);
            VariantV::lemma_tys(ws);
            assert(VariantV::tys(ws) =~= ShapeV::tys(ss));
        },
    }
}

/// The round trip of the packed fast path: each plain scalar element
/// writes its bits at the element width and reads back unchanged.
pub proof fn lemma_rt_fixed(items: Seq<ValueV>, e: ShapeV)
    requires
        forall|i: int| 0 <= i < items.len() ==> #[trigger] items[i].matches(e),
        plain_packed(e),
    ensures
        spec_encode_fixed(items, e.ty()) is Ok,
        ({
            let ws = spec_encode_fixed(items, e.ty())->Ok_0;
            &&& ws.len() == items.len()
            &&& (forall|i: int| 0 <= i < ws.len() ==> #[trigger] ws[i].wf())
            &&& (forall|i: int| 0 <= i < ws.len() ==> #[trigger] ws[i].ty() == e.ty())
            &&& spec_decode_list(ws, e) == Ok::<Seq<ValueV>, ErrorV>(items)
        }),
    decreases items, 1int,
{
    if items.len() == 0 {
        assert(spec_decode_list(Seq::<VariantV>::empty(), e) == Ok::<Seq<ValueV>, ErrorV>(
            Seq::<ValueV>::empty(),
        ));
        assert(items =~= Seq::<ValueV>::empty());
    } else {
        let x = items[0];
        let tail = items.subrange(1, items.len() as int);
        assert(forall|i: int| 0 <= i < tail.len() ==> #[trigger] tail[i].matches(e)) by {
            assert(forall|i: int|
                0 <= i < tail.len() ==> tail[i] == #[trigger] items[i + 1]);
        }
        lemma_rt_fixed(tail, e);
        assert(x.matches(e));
        lemma_rt_scalar_bits(x, e);
        let bits = spec_value_bits(x)->Ok_0;
        assert(spec_value_bits(x) is Ok);
        let w0 = crate::serializer::spec_fixed_scalar(e.ty(), bits);
        let wt = spec_encode_fixed(tail, e.ty())->Ok_0;
        let ws = seq![w0] + wt;
        assert(spec_encode_fixed(items, e.ty()) == Ok::<Seq<VariantV>, ErrorV>(ws));
        assert(ws[0] == w0);
        assert(ws.subrange(1, ws.len() as int) =~= wt);
        assert(spec_decode_list(ws, e) == Ok::<Seq<ValueV>, ErrorV>(seq![x] + tail));
        assert(seq![x] + tail =~= items);
        assert(forall|i: int| 0 <= i < ws.len() ==> #[trigger] ws[i].wf()) by {
            assert(forall|i: int| 1 <= i < ws.len() ==> ws[i] == #[trigger] wt[i - 1]);
        }
        assert(forall|i: int| 0 <= i < ws.len() ==> #[trigger] ws[i].ty() == e.ty()) by {
            assert(forall|i: int| 1 <= i < ws.len() ==> ws[i] == #[trigger] wt[i - 1]);
        }
    }
}


/// One plain scalar element survives the packed fast path: its bit
/// pattern, written at the element width, reads back as the same value.
pub proof fn lemma_rt_scalar_bits(x: ValueV, e: ShapeV)
    requires
        x.matches(e),
        plain_packed(e),
    ensures
        spec_value_bits(x) is Ok,
        ({
            let w0 = crate::serializer::spec_fixed_scalar(e.ty(), spec_value_bits(x)->Ok_0);
            &&& w0.wf()
            &&& w0.ty() == e.ty()
            &&& spec_decode(w0, e) == Ok::<ValueV, ErrorV>(x)
        }),
{
    match e {
        ShapeV::Bool => {},
        ShapeV::I16 => {
            let n = x->I16_0;
            assert(((n as u64) as i16) == n) by (bit_vector);
        },
        ShapeV::I32 => {
            let n = x->I32_0;
            assert(((n as u64) as i32) == n) by (bit_vector);
        },
        ShapeV::I64 => {
            let n = x->I64_0;
            assert(((n as u64) as i64) == n) by (bit_vector);
        },
        ShapeV::U8 => {},
        ShapeV::U16 => {},
        ShapeV::U32 => {},
        ShapeV::U64 => {},
        ShapeV::F64 => {},
        _ => {},
    }
}

/// The round trip of a generic array's elements.
pub proof fn lemma_rt_list(items: Seq<ValueV>, e: ShapeV)
    requires
        forall|i: int| 0 <= i < items.len() ==> #[trigger] items[i].matches(e),
        e.wf(),
        packable(e),
    ensures
        spec_encode_list(items, e.node(), e.ty()) is Ok,
        ({
            let ws = spec_encode_list(items, e.node(), e.ty())->Ok_0;
            &&& ws.len() == items.len()
            &&& (forall|i: int| 0 <= i < ws.len() ==> #[trigger] ws[i].wf())
            &&& (forall|i: int| 0 <= i < ws.len() ==> #[trigger] ws[i].ty() == e.ty())
            &&& spec_decode_list(ws, e) == Ok::<Seq<ValueV>, ErrorV>(items)
        }),
    decreases items, 1int,
{
    crate::shape::lemma_node_ty(e);
    if items.len() == 0 {
        assert(spec_decode_list(Seq::<VariantV>::empty(), e) == Ok::<Seq<ValueV>, ErrorV>(
            Seq::<ValueV>::empty(),
        ));
        assert(items =~= Seq::<ValueV>::empty());
    } else {
        let x = items[0];
        let tail = items.subrange(1, items.len() as int);
        assert(forall|i: int| 0 <= i < tail.len() ==> #[trigger] tail[i].matches(e)) by {
            assert(forall|i: int|
                0 <= i < tail.len() ==> tail[i] == #[trigger] items[i + 1]);
        }
        lemma_rt_list(tail, e);
        lemma_round_trip(x, e);
        let w0 = spec_encode(x, e.node())->Ok_0;
        assert(ty_matches(w0.ty(), e.ty()));
        let wt = spec_encode_list(tail, e.node(), e.ty())->Ok_0;
        let ws = seq![w0] + wt;
        assert(spec_encode_list(items, e.node(), e.ty()) == Ok::<Seq<VariantV>, ErrorV>(ws));
        assert(ws[0] == w0);
        assert(ws.subrange(1, ws.len() as int) =~= wt);
        assert(spec_decode_list(ws, e) == Ok::<Seq<ValueV>, ErrorV>(seq![x] + tail));
        assert(seq![x] + tail =~= items);
        assert(forall|i: int| 0 <= i < ws.len() ==> #[trigger] ws[i].wf()) by {
            assert(forall|i: int| 1 <= i < ws.len() ==> ws[i] == #[trigger] wt[i - 1]);
        }
        assert(forall|i: int| 0 <= i < ws.len() ==> #[trigger] ws[i].ty() == e.ty()) by {
            assert(forall|i: int| 1 <= i < ws.len() ==> ws[i] == #[trigger] wt[i - 1]);
        }
    }
}

/// The round trip of tuple or struct fields, from position `i` on.
pub proof fn lemma_rt_fields(items: Seq<ValueV>, ss: Seq<ShapeV>, n: NodeV, i: int)
    requires
        items.len() == ss.len(),
        0 <= i <= items.len(),
        forall|j: int| 0 <= j < items.len() ==> #[trigger] items[j].matches(ss[j]),
        ShapeV::all_wf(ss),
        all_packable(ss),
        n.child_tys == ShapeV::nodes(ss),
    ensures
        spec_encode_fields(items, n, i) is Ok,
        ({
            let ws = spec_encode_fields(items, n, i)->Ok_0;
            &&& ws.len() == items.len() - i
            &&& (forall|j: int| 0 <= j < ws.len() ==> #[trigger] ws[j].wf())
            &&& (forall|j: int| 0 <= j < ws.len() ==> #[trigger] ws[j].ty() == ss[i + j].ty())
            &&& spec_decode_fields(ws, ss.subrange(i, ss.len() as int)) == Ok::<
                Seq<ValueV>,
                ErrorV,
            >(items.subrange(i, items.len() as int))
        }),
    decreases items, items.len() - i,
{
    ShapeV::lemma_all_wf(ss);
    lemma_all_packable(ss);
    ShapeV::lemma_nodes(ss);
    if i == items.len() {
        assert(spec_encode_fields(items, n, i) == Ok::<Seq<VariantV>, ErrorV>(
            Seq::<VariantV>::empty(),
        ));
        assert(ss.subrange(i, ss.len() as int) =~= Seq::<ShapeV>::empty());
        assert(items.subrange(i, items.len() as int) =~= Seq::<ValueV>::empty());
        assert(spec_decode_fields(Seq::<VariantV>::empty(), Seq::<ShapeV>::empty()) == Ok::<
            Seq<ValueV>,
            ErrorV,
        >(Seq::<ValueV>::empty()));
    } else {
        assert(child_or_default(n, i) == ss[i].node());
        lemma_round_trip(items[i], ss[i]);
        lemma_rt_fields(items, ss, n, i + 1);
        let w0 = spec_encode(items[i], ss[i].node())->Ok_0;
        let wt = spec_encode_fields(items, n, i + 1)->Ok_0;
        let ws = seq![w0] + wt;
        assert(spec_encode_fields(items, n, i) == Ok::<Seq<VariantV>, ErrorV>(ws));
        assert(ws[0] == w0);
        assert(ws.subrange(1, ws.len() as int) =~= wt);
        let sub_ss = ss.subrange(i, ss.len() as int);
        let sub_items = items.subrange(i, items.len() as int);
        assert(sub_ss[0] == ss[i]);
        assert(sub_items[0] == items[i]);
        assert(sub_ss.subrange(1, sub_ss.len() as int) =~= ss.subrange(i + 1, ss.len() as int));
        assert(sub_items.subrange(1, sub_items.len() as int) =~= items.subrange(
            i + 1,
            items.len() as int,
        ));
        assert(ws.len() == sub_ss.len());
        assert(spec_decode(w0, ss[i]) == Ok::<ValueV, ErrorV>(items[i]));
        assert(spec_decode_fields(ws, sub_ss) == Ok::<Seq<ValueV>, ErrorV>(
            seq![items[i]] + items.subrange(i + 1, items.len() as int),
        ));
        assert(seq![items[i]] + items.subrange(i + 1, items.len() as int) =~= sub_items);
        assert(forall|j: int| 0 <= j < ws.len() ==> #[trigger] ws[j].wf()) by {
            assert(forall|j: int| 1 <= j < ws.len() ==> ws[j] == #[trigger] wt[j - 1]);
        }
        assert(forall|j: int| 0 <= j < ws.len() ==> #[trigger] ws[j].ty() == ss[i + j].ty())
            by {
            assert(forall|j: int| 1 <= j < ws.len() ==> ws[j] == #[trigger] wt[j - 1]);
        }
    }
}

/// The round trip of a dictionary's entries.
pub proof fn lemma_rt_pairs(pairs: Seq<(ValueV, ValueV)>, k: ShapeV, v: ShapeV, kn: NodeV, vn: NodeV)
    requires
        forall|i: int|
            0 <= i < pairs.len() ==> (#[trigger] pairs[i]).0.matches(k) && pairs[i].1.matches(v),
        k.ty().is_basic(),
        k.wf(),
        v.wf(),
        packable(k),
        packable(v),
        kn == k.node(),
        vn == v.node(),
    ensures
        spec_encode_pairs(pairs, kn, vn, TyV::Entry(Box::new(k.ty()), Box::new(v.ty()))) is Ok,
        ({
            let elem = TyV::Entry(Box::new(k.ty()), Box::new(v.ty()));
            let ws = spec_encode_pairs(pairs, kn, vn, elem)->Ok_0;
            &&& ws.len() == pairs.len()
            &&& (forall|i: int| 0 <= i < ws.len() ==> #[trigger] ws[i].wf())
            &&& (forall|i: int| 0 <= i < ws.len() ==> #[trigger] ws[i].ty() == elem)
            &&& spec_decode_entries(ws, k, v) == Ok::<Seq<(ValueV, ValueV)>, ErrorV>(pairs)
        }),
    decreases pairs, 1int,
{
    crate::shape::lemma_node_ty(k);
    crate::shape::lemma_node_ty(v);
    let elem = TyV::Entry(Box::new(k.ty()), Box::new(v.ty()));
    if pairs.len() == 0 {
        assert(spec_decode_entries(Seq::<VariantV>::empty(), k, v) == Ok::<
            Seq<(ValueV, ValueV)>,
            ErrorV,
        >(Seq::<(ValueV, ValueV)>::empty()));
        assert(pairs =~= Seq::<(ValueV, ValueV)>::empty());
    } else {
        let tail = pairs.subrange(1, pairs.len() as int);
        assert(forall|i: int|
            0 <= i < tail.len() ==> (#[trigger] tail[i]).0.matches(k) && tail[i].1.matches(
                v,
            )) by {
            assert(forall|i: int| 0 <= i < tail.len() ==> tail[i] == #[trigger] pairs[i + 1]);
        }
        lemma_rt_pairs(tail, k, v, kn, vn);
        lemma_round_trip(pairs[0].0, k);
        lemma_round_trip(pairs[0].1, v);
        let kw = spec_encode(pairs[0].0, kn)->Ok_0;
        let vw = spec_encode(pairs[0].1, vn)->Ok_0;
        let ent = VariantV::Entry(Box::new(kw), Box::new(vw));
        assert(ent.ty() == elem);
        assert(ty_matches(ent.ty(), elem));
        let wt = spec_encode_pairs(tail, kn, vn, elem)->Ok_0;
        let ws = seq![ent] + wt;
        assert(spec_encode_pairs(pairs, kn, vn, elem) == Ok::<Seq<VariantV>, ErrorV>(ws));
        assert(ws[0] == ent);
        assert(ws.subrange(1, ws.len() as int) =~= wt);
        assert(spec_decode(kw, k) == Ok::<ValueV, ErrorV>(pairs[0].0));
        assert(spec_decode(vw, v) == Ok::<ValueV, ErrorV>(pairs[0].1));
        assert(spec_decode_entries(ws, k, v) == Ok::<Seq<(ValueV, ValueV)>, ErrorV>(
            seq![(pairs[0].0, pairs[0].1)] + tail,
        ));
        assert(seq![(pairs[0].0, pairs[0].1)] + tail =~= pairs);
        assert(ent.wf());
        assert(forall|i: int| 0 <= i < ws.len() ==> #[trigger] ws[i].wf()) by {
            assert(forall|i: int| 1 <= i < ws.len() ==> ws[i] == #[trigger] wt[i - 1]);
        }
        assert(forall|i: int| 0 <= i < ws.len() ==> #[trigger] ws[i].ty() == elem) by {
            assert(forall|i: int| 1 <= i < ws.len() ==> ws[i] == #[trigger] wt[i - 1]);
        }
    }
}

/// Signature determinism: the wire type of an encoded value depends on
/// the shape alone, never on the value's contents.
pub proof fn lemma_signature_deterministic(v1: ValueV, v2: ValueV, sh: ShapeV)
    requires
        v1.matches(sh),
        v2.matches(sh),
        sh.wf(),
        packable(sh),
    ensures
        spec_encode(v1, sh.node()) is Ok,
        spec_encode(v2, sh.node()) is Ok,
        spec_encode(v1, sh.node())->Ok_0.ty() == spec_encode(v2, sh.node())->Ok_0.ty(),
{
    lemma_round_trip(v1, sh);
    lemma_round_trip(v2, sh);
}

/// Newtype transparency: a single-field wrapper encodes to exactly the
/// wire value of its field, under exactly the field's type description.
pub proof fn lemma_newtype_transparent(x: ValueV, e: ShapeV)
    ensures
        (ShapeV::Newtype(Box::new(e))).node() == e.node(),
        spec_encode(ValueV::Newtype(Box::new(x)), e.node()) == spec_encode(x, e.node()),
{
}

/// Fast-path equivalence: on a sequence of plain fixed-width scalars,
/// the packed fast path and the generic per-element path produce
/// identical wire values.
pub proof fn lemma_fast_path_equivalent(items: Seq<ValueV>, e: ShapeV)
    requires
        forall|i: int| 0 <= i < items.len() ==> #[trigger] items[i].matches(e),
        plain_packed(e),
    ensures
        spec_encode_fixed(items, e.ty()) == spec_encode_list(items, e.node(), e.ty()),
    decreases items,
{
    if items.len() > 0 {
        let x = items[0];
        let tail = items.subrange(1, items.len() as int);
        assert(forall|i: int| 0 <= i < tail.len() ==> #[trigger] tail[i].matches(e)) by {
            assert(forall|i: int|
                0 <= i < tail.len() ==> tail[i] == #[trigger] items[i + 1]);
        }
        lemma_fast_path_equivalent(tail, e);
        lemma_rt_scalar_bits(x, e);
        assert(e.node() == NodeV::leaf(e.ty())) by {
            match e {
                ShapeV::Bool => {},
                ShapeV::I16 => {},
                ShapeV::I32 => {},
                ShapeV::I64 => {},
                ShapeV::U8 => {},
                ShapeV::U16 => {},
                ShapeV::U32 => {},
                ShapeV::U64 => {},
                ShapeV::F64 => {},
                _ => {},
            }
        }
        let bits = spec_value_bits(x)->Ok_0;
        let w0 = crate::serializer::spec_fixed_scalar(e.ty(), bits);
        assert(spec_encode(x, e.node()) == Ok::<VariantV, ErrorV>(w0)) by {
            match e {
                ShapeV::Bool => {},
                ShapeV::I16 => {
                    let n = x->I16_0;
                    assert(((n as u64) as i16) == n) by (bit_vector);
                },
                ShapeV::I32 => {
                    let n = x->I32_0;
                    assert(((n as u64) as i32) == n) by (bit_vector);
                },
                ShapeV::I64 => {
                    let n = x->I64_0;
                    assert(((n as u64) as i64) == n) by (bit_vector);
                },
                ShapeV::U8 => {},
                ShapeV::U16 => {},
                ShapeV::U32 => {},
                ShapeV::U64 => {},
                ShapeV::F64 => {},
                _ => {},
            }
        }
        assert(ty_matches(w0.ty(), e.ty())) by {
            lemma_rt_scalar_bits(x, e);
        }
    }
}

} // verus!
