//! The encoder: a logical value plus a type-description node becomes a
//! wire value.
//!
//! The encoder resolves every child type from the node, falling back to
//! the signature algebra when the static descriptor is sparse.  Strings
//! are dispatched on the target signature; sequences of fixed-width
//! primitives take a packed fast path; optionals always carry their
//! element type; enums write their tag per the node's tag scheme.
//!
//! [`spec_encode`] is the normative description: the executable encoder
//! returns exactly what it says, error cases included.

use crate::error::{Error, ErrorV};
use crate::object_path::{is_valid_path, path_is_valid};
use crate::signature::{is_valid_signature, signature_is_valid};
use crate::ty::{TyV, VariantTy};
use crate::value::{value_view, PayloadValue, PayloadValueV, Value, ValueV};
use crate::variant::{Variant, VariantV};
use crate::variant_type::{
    child_or_default, child_type_or_default, NodeV, ReprWidth, TagMode, TagSchemeV,
    VariantTypeNode,
};
use vstd::prelude::*;
use vstd::string::*;

verus! {

/// Whether a value of type `a` is acceptable where `d` is declared: the
/// declared type matches exactly or is the wildcard.
pub open spec fn ty_matches(a: TyV, d: TyV) -> bool {
    d == TyV::Any || a == d
}

/// The string-encoding policy: dispatch on the target signature.  A path
/// or signature target validates the string; a plain or wildcard target
/// takes it as-is; any other target is a mismatch.
pub open spec fn spec_encode_str(s: Seq<char>, target: TyV) -> Result<VariantV, ErrorV> {
    match target {
        TyV::ObjPath => if is_valid_path(s) {
            Ok(VariantV::ObjPath(s))
        } else {
            Err(ErrorV::TypeMismatch(TyV::ObjPath))
        },
        TyV::Sig => if is_valid_signature(s) {
            Ok(VariantV::Sig(s))
        } else {
            Err(ErrorV::TypeMismatch(TyV::Sig))
        },
        TyV::Str => Ok(VariantV::Str(s)),
        TyV::Any => Ok(VariantV::Str(s)),
        _ => Err(ErrorV::TypeMismatch(target)),
    }
}

/// A byte sequence as a wire array of bytes.
pub open spec fn bytes_wire(bs: Seq<u8>) -> Seq<VariantV>
    decreases bs,
{
    if bs.len() == 0 {
        Seq::empty()
    } else {
        bytes_wire(bs.drop_last()).push(VariantV::Byte(bs.last()))
    }
}

/// The packed fast path reads each element as a 64-bit pattern: booleans
/// and integers widen, a double contributes its bit pattern; anything
/// else cannot sit in a packed array.
pub open spec fn spec_value_bits(v: ValueV) -> Result<u64, ErrorV> {
    match v {
        ValueV::Bool(b) => Ok(if b {
            1u64
        } else {
            0u64
        }),
        ValueV::I16(x) => Ok(x as u64),
        ValueV::I32(x) => Ok(x as u64),
        ValueV::I64(x) => Ok(x as u64),
        ValueV::U8(x) => Ok(x as u64),
        ValueV::U16(x) => Ok(x as u64),
        ValueV::U32(x) => Ok(x as u64),
        ValueV::U64(x) => Ok(x),
        ValueV::F64(bits) => Ok(bits),
        _ => Err(ErrorV::Custom("invalid element for a packed array"@)),
    }
}

/// A fixed-width scalar wire value from a 64-bit pattern, truncated to
/// the element type's width.
pub open spec fn spec_fixed_scalar(e: TyV, bits: u64) -> VariantV {
    match e {
        TyV::Bool => VariantV::Bool(bits != 0),
        TyV::Byte => VariantV::Byte(bits as u8),
        TyV::Int16 => VariantV::Int16(bits as i16),
        TyV::Uint16 => VariantV::Uint16(bits as u16),
        TyV::Int32 => VariantV::Int32(bits as i32),
        TyV::Uint32 => VariantV::Uint32(bits as u32),
        TyV::Int64 => VariantV::Int64(bits as i64),
        TyV::Uint64 => VariantV::Uint64(bits),
        _ => VariantV::Double(bits),
    }
}

/// The packed fast path over a sequence of elements.
pub open spec fn spec_encode_fixed(items: Seq<ValueV>, e: TyV) -> Result<Seq<VariantV>, ErrorV>
    decreases items,
{
    if items.len() == 0 {
        Ok(Seq::empty())
    } else {
        match spec_value_bits(items[0]) {
            Ok(bits) => match spec_encode_fixed(items.subrange(1, items.len() as int), e) {
                Ok(ws) => Ok(seq![spec_fixed_scalar(e, bits)] + ws),
                Err(er) => Err(er),
            },
            Err(er) => Err(er),
        }
    }
}

/// The tag written for variant `index` with declared name `name` and
/// discriminant `disc`, under the given mode: the name as a string, the
/// index at an unsigned width, or the discriminant at the declared width;
/// a tag that does not fit its width is an overflow.
pub open spec fn spec_make_tag(mode: TagMode, index: u32, name: Seq<char>, disc: i64) -> Result<
    VariantV,
    ErrorV,
> {
    match mode {
        TagMode::Name => Ok(VariantV::Str(name)),
        TagMode::Ordinal(w) => if w.fits(index as int) {
            Ok(spec_int_at_width(w, index as int))
        } else {
            Err(ErrorV::IntegerOverflow)
        },
        TagMode::Repr(w) => if w.fits(disc as int) {
            Ok(spec_int_at_width(w, disc as int))
        } else {
            Err(ErrorV::IntegerOverflow)
        },
    }
}

/// An integer written at a tag width.  The value is in range by the
/// width's `fits` check before this is used.
pub open spec fn spec_int_at_width(w: ReprWidth, x: int) -> VariantV {
    match w {
        ReprWidth::Signed8 => VariantV::Int16(x as i16),
        ReprWidth::Signed16 => VariantV::Int16(x as i16),
        ReprWidth::Signed32 => VariantV::Int32(x as i32),
        ReprWidth::Signed64 => VariantV::Int64(x as i64),
        ReprWidth::Unsigned8 => VariantV::Byte(x as u8),
        ReprWidth::Unsigned16 => VariantV::Uint16(x as u16),
        ReprWidth::Unsigned32 => VariantV::Uint32(x as u32),
        ReprWidth::Unsigned64 => VariantV::Uint64(x as u64),
    }
}

/// What the encoder produces for a value under a node, error cases
/// included.
pub open spec fn spec_encode(v: ValueV, n: NodeV) -> Result<VariantV, ErrorV>
    decreases v, 1int,
{
    match v {
        ValueV::Bool(b) => Ok(VariantV::Bool(b)),
        ValueV::I8(x) => Ok(VariantV::Int16(x as i16)),
        ValueV::I16(x) => Ok(VariantV::Int16(x)),
        ValueV::I32(x) => Ok(VariantV::Int32(x)),
        ValueV::I64(x) => Ok(VariantV::Int64(x)),
        ValueV::U8(x) => Ok(VariantV::Byte(x)),
        ValueV::U16(x) => Ok(VariantV::Uint16(x)),
        ValueV::U32(x) => Ok(VariantV::Uint32(x)),
        ValueV::U64(x) => Ok(VariantV::Uint64(x)),
        ValueV::F64(bits) => Ok(VariantV::Double(bits)),
        ValueV::Char(c) => spec_encode_str(seq![c], n.ty),
        ValueV::Str(s) => spec_encode_str(s, n.ty),
        ValueV::Path(p) => if is_valid_path(p) {
            Ok(VariantV::ObjPath(p))
        } else {
            Err(ErrorV::ValidationFailure(p))
        },
        ValueV::Sig(g) => if is_valid_signature(g) {
            Ok(VariantV::Sig(g))
        } else {
            Err(ErrorV::ValidationFailure(g))
        },
        ValueV::Bytes(bs) => Ok(VariantV::Array { elem: TyV::Byte, items: bytes_wire(bs) }),
        ValueV::Unit => Ok(VariantV::Tuple(Seq::empty())),
        ValueV::OptNone => {
            let c = child_or_default(n, 0);
            if c.ty.is_definite() {
                Ok(VariantV::Maybe { elem: c.ty, inner: None })
            } else {
                Err(ErrorV::UnsupportedType(c.ty))
            }
        },
        ValueV::OptSome(x) => {
            let c = child_or_default(n, 0);
            match spec_encode(*x, c) {
                Ok(w) => if ty_matches(w.ty(), c.ty) {
                    Ok(VariantV::Maybe { elem: w.ty(), inner: Some(Box::new(w)) })
                } else {
                    Err(ErrorV::TypeMismatch(w.ty()))
                },
                Err(er) => Err(er),
            }
        },
        ValueV::List(items) => match n.ty {
            TyV::Array(e) => if e.is_fixed_width() {
                match spec_encode_fixed(items, *e) {
                    Ok(ws) => Ok(VariantV::Array { elem: *e, items: ws }),
                    Err(er) => Err(er),
                }
            } else {
                let c = child_or_default(n, 0);
                match spec_encode_list(items, c, *e) {
                    Ok(ws) => Ok(VariantV::Array { elem: *e, items: ws }),
                    Err(er) => Err(er),
                }
            },
            _ => Err(ErrorV::UnsupportedType(n.ty)),
        },
        ValueV::Tup(items) => match spec_encode_fields(items, n, 0) {
            Ok(ws) => Ok(VariantV::Tuple(ws)),
            Err(er) => Err(er),
        },
        ValueV::MapOf(pairs) => match n.ty {
            TyV::Array(e) => {
                let kc = child_or_default(n, 0);
                let vc = child_or_default(n, 1);
                match spec_encode_pairs(pairs, kc, vc, *e) {
                    Ok(ws) => Ok(VariantV::Array { elem: *e, items: ws }),
                    Err(er) => Err(er),
                }
            },
            _ => Err(ErrorV::UnsupportedType(n.ty)),
        },
        ValueV::Newtype(x) => spec_encode(*x, n),
        ValueV::EnumVal { index, payload } => match n.tag {
            None => Err(ErrorV::InvalidTag(n.ty)),
            Some(scheme) => if index as int >= scheme.variants.len() {
                Err(ErrorV::InvalidTag(n.ty))
            } else {
                let entry = scheme.variants[index as int];
                match spec_make_tag(scheme.mode, index, entry.name, entry.disc) {
                    Err(er) => Err(er),
                    Ok(tag) => match n.ty {
                        TyV::Tuple(_) => {
                            let pc = child_or_default(n, index as int);
                            match spec_encode_payload(payload, pc) {
                                Ok(pw) => Ok(
                                    VariantV::Tuple(
                                        seq![tag, VariantV::Boxed(Box::new(pw))],
                                    ),
                                ),
                                Err(er) => Err(er),
                            }
                        },
                        _ => match payload {
                            PayloadValueV::Unit => Ok(tag),
                            _ => Err(ErrorV::UnsupportedType(n.ty)),
                        },
                    },
                }
            },
        },
        ValueV::Wire(w) => Ok(VariantV::Boxed(Box::new(w))),
    }
}

/// Encoding of the elements of a generic (non-packed) array: each element
/// is encoded against the element node and must come out at the declared
/// element type.
pub open spec fn spec_encode_list(items: Seq<ValueV>, c: NodeV, elem: TyV) -> Result<
    Seq<VariantV>,
    ErrorV,
>
    decreases items, 0int,
{
    if items.len() == 0 {
        Ok(Seq::empty())
    } else {
        match spec_encode(items[0], c) {
            Ok(w) => if ty_matches(w.ty(), elem) {
                match spec_encode_list(items.subrange(1, items.len() as int), c, elem) {
                    Ok(ws) => Ok(seq![w] + ws),
                    Err(er) => Err(er),
                }
            } else {
                Err(ErrorV::TypeMismatch(w.ty()))
            },
            Err(er) => Err(er),
        }
    }
}

/// Encoding of tuple or struct fields: field `i` is encoded against the
/// node's child `i`, falling back to the signature algebra.
pub open spec fn spec_encode_fields(items: Seq<ValueV>, n: NodeV, i: int) -> Result<
    Seq<VariantV>,
    ErrorV,
>
    decreases items, items.len() - i,
{
    if i < 0 || i >= items.len() {
        Ok(Seq::empty())
    } else {
        match spec_encode(items[i], child_or_default(n, i)) {
            Ok(w) => match spec_encode_fields(items, n, i + 1) {
                Ok(ws) => Ok(seq![w] + ws),
                Err(er) => Err(er),
            },
            Err(er) => Err(er),
        }
    }
}

/// Encoding of map entries: each key and value is encoded against the
/// node's declared key and value children, and each resulting dictionary
/// entry must come out at the array's declared element type.
pub open spec fn spec_encode_pairs(
    pairs: Seq<(ValueV, ValueV)>,
    kc: NodeV,
    vc: NodeV,
    elem: TyV,
) -> Result<Seq<VariantV>, ErrorV>
    decreases pairs, 1int,
{
    if pairs.len() == 0 {
        Ok(Seq::empty())
    } else {
        match spec_encode(pairs[0].0, kc) {
            Ok(kw) => match spec_encode(pairs[0].1, vc) {
                Ok(vw) => {
                    let ent = VariantV::Entry(Box::new(kw), Box::new(vw));
                    if ty_matches(ent.ty(), elem) {
                        match spec_encode_pairs(
                            pairs.subrange(1, pairs.len() as int),
                            kc,
                            vc,
                            elem,
                        ) {
                            Ok(ws) => Ok(seq![ent] + ws),
                            Err(er) => Err(er),
                        }
                    } else {
                        Err(ErrorV::TypeMismatch(ent.ty()))
                    }
                },
                Err(er) => Err(er),
            },
            Err(er) => Err(er),
        }
    }
}

/// Encoding of one enum variant's payload against the variant's node: a
/// unit payload is the empty tuple, a single field is transparent, fields
/// form a tuple.
pub open spec fn spec_encode_payload(p: PayloadValueV, pc: NodeV) -> Result<VariantV, ErrorV>
    decreases p, 2int,
{
    match p {
        PayloadValueV::Unit => Ok(VariantV::Tuple(Seq::empty())),
        PayloadValueV::Newtype(x) => spec_encode(*x, pc),
        PayloadValueV::Fields(xs) => match spec_encode_fields(xs, pc, 0) {
            Ok(ws) => Ok(VariantV::Tuple(ws)),
            Err(er) => Err(er),
        },
    }
}

/// The executable result agrees with the specified one, case by case.
pub open spec fn enc_res_eq(r: Result<Variant, Error>, s: Result<VariantV, ErrorV>) -> bool {
    match r {
        Ok(w) => s is Ok && w@ == s->Ok_0,
        Err(e) => s is Err && e@ == s->Err_0,
    }
}

/// The executable element list agrees with the specified one.
pub open spec fn enc_list_eq(r: Result<Vec<Variant>, Error>, s: Result<Seq<VariantV>, ErrorV>) -> bool {
    match r {
        Ok(ws) => s is Ok && crate::variant::vars_view(ws@) == s->Ok_0,
        Err(e) => s is Err && e@ == s->Err_0,
    }
}

/// Whether a value of the first type is acceptable where the second is
/// declared.
pub fn ty_accepts(a: &VariantTy, d: &VariantTy) -> (r: bool)
    ensures
        r == ty_matches(a@, d@),
{
    match d {
        VariantTy::Any => true,
        _ => a.ty_eq(d),
    }
}

/// Whether the type is one of the nine fixed-width primitive codes.
pub fn is_fixed_width_ty(t: &VariantTy) -> (r: bool)
    ensures
        r == t@.is_fixed_width(),
{
    match t {
        VariantTy::Bool
        | VariantTy::Byte
        | VariantTy::Int16
        | VariantTy::Uint16
        | VariantTy::Int32
        | VariantTy::Uint32
        | VariantTy::Int64
        | VariantTy::Uint64
        | VariantTy::Double => true,
        _ => false,
    }
}

/// The string-encoding policy, executable side.
pub fn encode_str(s: &str, target: &VariantTy) -> (r: Result<Variant, Error>)
    ensures
        enc_res_eq(r, spec_encode_str(s@, target@)),
{
    match target {
        VariantTy::ObjPath => {
            if path_is_valid(s) {
                Ok(Variant::ObjPath(s.to_owned()))
            } else {
                Err(Error::TypeMismatch(VariantTy::ObjPath))
            }
        },
        VariantTy::Sig => {
            if signature_is_valid(s) {
                Ok(Variant::Sig(s.to_owned()))
            } else {
                Err(Error::TypeMismatch(VariantTy::Sig))
            }
        },
        VariantTy::Str => Ok(Variant::Str(s.to_owned())),
        VariantTy::Any => Ok(Variant::Str(s.to_owned())),
        _ => Err(Error::TypeMismatch(target.duplicate())),
    }
}

/// One element's 64-bit pattern for the packed fast path.
pub fn value_bits(v: &Value) -> (r: Result<u64, Error>)
    ensures
        match r {
            Ok(b) => spec_value_bits(v@) == Ok::<u64, ErrorV>(b),
            Err(e) => spec_value_bits(v@) is Err && e@ == spec_value_bits(v@)->Err_0,
        },
{
    match v {
        Value::Bool(b) => Ok(if *b {
            1u64
        } else {
            0u64
        }),
        Value::I16(x) => Ok(*x as u64),
        Value::I32(x) => Ok(*x as u64),
        Value::I64(x) => Ok(*x as u64),
        Value::U8(x) => Ok(*x as u64),
        Value::U16(x) => Ok(*x as u64),
        Value::U32(x) => Ok(*x as u64),
        Value::U64(x) => Ok(*x),
        Value::F64(bits) => Ok(*bits),
        _ => Err(Error::Custom(String::from_str("invalid element for a packed array"))),
    }
}

/// A fixed-width scalar wire value from a 64-bit pattern.
pub fn fixed_scalar(e: &VariantTy, bits: u64) -> (r: Variant)
    ensures
        r@ == spec_fixed_scalar(e@, bits),
{
    match e {
        VariantTy::Bool => Variant::Bool(bits != 0),
        VariantTy::Byte => Variant::Byte(bits as u8),
        VariantTy::Int16 => Variant::Int16(bits as i16),
        VariantTy::Uint16 => Variant::Uint16(bits as u16),
        VariantTy::Int32 => Variant::Int32(bits as i32),
        VariantTy::Uint32 => Variant::Uint32(bits as u32),
        VariantTy::Int64 => Variant::Int64(bits as i64),
        VariantTy::Uint64 => Variant::Uint64(bits),
        _ => Variant::Double(bits),
    }
}

/// The packed fast path: reads each element as a 64-bit pattern and
/// writes it at the element type's width, with no per-element node
/// lookup.
pub fn encode_fixed(items: &Vec<Value>, e: &VariantTy, j: usize) -> (r: Result<Vec<Variant>, Error>)
    requires
        j <= items@.len(),
    ensures
        enc_list_eq(
            r,
            spec_encode_fixed(
                crate::value::values_view(items@).subrange(j as int, items@.len() as int),
                e@,
            ),
        ),
    decreases items@.len() - j,
{
    let ghost vv = crate::value::values_view(items@);
    let ghost sub = vv.subrange(j as int, items@.len() as int);
    proof {
        crate::value::lemma_values_view(items@);
    }
    if j == items.len() {
        let out: Vec<Variant> = Vec::new();
        proof {
            assert(crate::variant::vars_view(out@) =~= Seq::<VariantV>::empty());
        }
        return Ok(out);
    }
    proof {
        assert(sub[0] == value_view(items@[j as int]));
        assert(sub.subrange(1, sub.len() as int) =~= vv.subrange(
            j as int + 1,
            items@.len() as int,
        ));
    }
    match value_bits(&items[j]) {
        Ok(bits) => {
            match encode_fixed(items, e, j + 1) {
                Ok(ws) => {
                    let w = fixed_scalar(e, bits);
                    let ghost wv = w@;
                    let ghost wsv = ws@;
                    let mut out = ws;
                    out.insert(0, w);
                    proof {
                        crate::variant::lemma_vars_view(out@);
                        crate::variant::lemma_vars_view(out@.subrange(1, out@.len() as int));
                        assert(out@.subrange(1, out@.len() as int) =~= wsv);
                        assert(crate::variant::vars_view(out@) =~= seq![wv]
                            + crate::variant::vars_view(wsv));
                    }
                    Ok(out)
                },
                Err(er) => Err(er),
            }
        },
        Err(er) => Err(er),
    }
}

/// The tag for one enum variant, per the node's tag scheme.
pub fn make_tag(mode: TagMode, index: u32, name: &String, disc: i64) -> (r: Result<Variant, Error>)
    ensures
        enc_res_eq(r, spec_make_tag(mode, index, name@, disc)),
{
    match mode {
        TagMode::Name => Ok(Variant::Str(name.clone())),
        TagMode::Ordinal(w) => {
            if width_fits_u32(w, index) {
                Ok(int_at_width_u(w, index as u64))
            } else {
                Err(Error::IntegerOverflow)
            }
        },
        TagMode::Repr(w) => {
            if width_fits_i64(w, disc) {
                Ok(int_at_width_i(w, disc))
            } else {
                Err(Error::IntegerOverflow)
            }
        },
    }
}

/// Whether an index fits the width's range.
pub fn width_fits_u32(w: ReprWidth, x: u32) -> (r: bool)
    ensures
        r == w.fits(x as int),
{
    match w {
        ReprWidth::Signed8 => x <= 127,
        ReprWidth::Signed16 => x <= 0x7fff,
        ReprWidth::Signed32 => x <= 0x7fff_ffff,
        ReprWidth::Signed64 => true,
        ReprWidth::Unsigned8 => x <= 255,
        ReprWidth::Unsigned16 => x <= 0xffff,
        ReprWidth::Unsigned32 => true,
        ReprWidth::Unsigned64 => true,
    }
}

/// Whether a discriminant fits the width's range.
pub fn width_fits_i64(w: ReprWidth, x: i64) -> (r: bool)
    ensures
        r == w.fits(x as int),
{
    match w {
        ReprWidth::Signed8 => -128 <= x && x <= 127,
        ReprWidth::Signed16 => -0x8000 <= x && x <= 0x7fff,
        ReprWidth::Signed32 => -0x8000_0000 <= x && x <= 0x7fff_ffff,
        ReprWidth::Signed64 => true,
        ReprWidth::Unsigned8 => 0 <= x && x <= 255,
        ReprWidth::Unsigned16 => 0 <= x && x <= 0xffff,
        ReprWidth::Unsigned32 => 0 <= x && x <= 0xffff_ffff,
        ReprWidth::Unsigned64 => 0 <= x,
    }
}

/// An in-range unsigned tag value written at its width.
pub fn int_at_width_u(w: ReprWidth, x: u64) -> (r: Variant)
    requires
        w.fits(x as int),
    ensures
        r@ == spec_int_at_width(w, x as int),
{
    match w {
        ReprWidth::Signed8 => Variant::Int16(x as i16),
        ReprWidth::Signed16 => Variant::Int16(x as i16),
        ReprWidth::Signed32 => Variant::Int32(x as i32),
        ReprWidth::Signed64 => Variant::Int64(x as i64),
        ReprWidth::Unsigned8 => Variant::Byte(x as u8),
        ReprWidth::Unsigned16 => Variant::Uint16(x as u16),
        ReprWidth::Unsigned32 => Variant::Uint32(x as u32),
        ReprWidth::Unsigned64 => Variant::Uint64(x),
    }
}

/// An in-range signed tag value written at its width.
pub fn int_at_width_i(w: ReprWidth, x: i64) -> (r: Variant)
    requires
        w.fits(x as int),
    ensures
        r@ == spec_int_at_width(w, x as int),
{
    match w {
        ReprWidth::Signed8 => Variant::Int16(x as i16),
        ReprWidth::Signed16 => Variant::Int16(x as i16),
        ReprWidth::Signed32 => Variant::Int32(x as i32),
        ReprWidth::Signed64 => Variant::Int64(x),
        ReprWidth::Unsigned8 => Variant::Byte(x as u8),
        ReprWidth::Unsigned16 => Variant::Uint16(x as u16),
        ReprWidth::Unsigned32 => Variant::Uint32(x as u32),
        ReprWidth::Unsigned64 => Variant::Uint64(x as u64),
    }
}

/// Encodes a logical value against a type-description node, producing a
/// wire value or the error [`spec_encode`] prescribes.
pub fn encode(value: &Value, node: &VariantTypeNode) -> (r: Result<Variant, Error>)
    ensures
        enc_res_eq(r, spec_encode(value@, node@)),
    decreases value, 1int,
{
    match value {
        Value::Bool(b) => Ok(Variant::Bool(*b)),
        Value::I8(x) => Ok(Variant::Int16(*x as i16)),
        Value::I16(x) => Ok(Variant::Int16(*x)),
        Value::I32(x) => Ok(Variant::Int32(*x)),
        Value::I64(x) => Ok(Variant::Int64(*x)),
        Value::U8(x) => Ok(Variant::Byte(*x)),
        Value::U16(x) => Ok(Variant::Uint16(*x)),
        Value::U32(x) => Ok(Variant::Uint32(*x)),
        Value::U64(x) => Ok(Variant::Uint64(*x)),
        Value::F64(bits) => Ok(Variant::Double(*bits)),
        Value::Char(c) => {
            let cs = crate::util::char_string(*c);
            let r = encode_str(cs.as_str(), &node.ty);
            proof {
                assert(enc_res_eq(r, spec_encode(value@, node@)));
            }
            r
        },
        Value::Str(s) => {
            let r = encode_str(s.as_str(), &node.ty);
            proof {
                assert(enc_res_eq(r, spec_encode(value@, node@)));
            }
            r
        },
        Value::Path(p) => {
            let r: Result<Variant, Error> = if path_is_valid(p.as_str()) {
                Ok(Variant::ObjPath(p.clone()))
            } else {
                Err(Error::ValidationFailure(p.clone()))
            };
            proof {
                assert(enc_res_eq(r, spec_encode(value@, node@)));
            }
            r
        },
        Value::Sig(g) => {
            let r: Result<Variant, Error> = if signature_is_valid(g.as_str()) {
                Ok(Variant::Sig(g.clone()))
            } else {
                Err(Error::ValidationFailure(g.clone()))
            };
            proof {
                assert(enc_res_eq(r, spec_encode(value@, node@)));
            }
            r
        },
        Value::Bytes(bs) => {
            let mut items: Vec<Variant> = Vec::new();
            let mut j: usize = 0;
            #[verifier::loop_isolation(false)]
            while j < bs.len()
                invariant
                    0 <= j <= bs@.len(),
                    crate::variant::vars_view(items@) == bytes_wire(bs@.subrange(0, j as int)),
                decreases bs@.len() - j,
            {
                let ghost prev = items@;
                items.push(Variant::Byte(bs[j]));
                proof {
                    assert(items@.drop_last() =~= prev);
                    assert(items@.last() == Variant::Byte(bs@[j as int]));
                    assert(items@.len() > 0);
                    assert(crate::variant::vars_view(items@) == crate::variant::vars_view(
                        items@.drop_last(),
                    ).push(crate::variant::var_view(items@.last())));
                    assert(crate::variant::var_view(items@.last()) == VariantV::Byte(
                        bs@[j as int],
                    ));
                    assert(crate::variant::vars_view(items@.drop_last())
                        == crate::variant::vars_view(prev));
                    assert(crate::variant::vars_view(items@) == crate::variant::vars_view(
                        prev,
                    ).push(VariantV::Byte(bs@[j as int])));
                    assert(bs@.subrange(0, j as int + 1).drop_last() =~= bs@.subrange(
                        0,
                        j as int,
                    ));
                    assert(bs@.subrange(0, j as int + 1).last() == bs@[j as int]);
                    assert(bytes_wire(bs@.subrange(0, j as int + 1)) == bytes_wire(
                        bs@.subrange(0, j as int),
                    ).push(VariantV::Byte(bs@[j as int])));
                }
                j += 1;
            }
            proof {
                assert(bs@.subrange(0, bs@.len() as int) =~= bs@);
            }
            let r: Result<Variant, Error> = Ok(Variant::Array { elem: VariantTy::Byte, items });
            proof {
                assert(enc_res_eq(r, spec_encode(value@, node@)));
            }
            r
        },
        Value::Unit => {
            let out: Vec<Variant> = Vec::new();
            proof {
                assert(crate::variant::vars_view(out@) =~= Seq::<VariantV>::empty());
            }
            Ok(Variant::Tuple(out))
        },
        Value::OptNone => {
            let c = child_type_or_default(node, 0);
            let r: Result<Variant, Error> = if c.ty.is_definite() {
                Ok(Variant::Maybe { elem: c.ty, inner: None })
            } else {
                Err(Error::UnsupportedType(c.ty))
            };
            proof {
                assert(enc_res_eq(r, spec_encode(value@, node@)));
            }
            r
        },
        Value::OptSome(x) => {
            let c = child_type_or_default(node, 0);
            let r: Result<Variant, Error> = match encode(x, &c) {
                Ok(w) => {
                    let wt = w.type_();
                    if ty_accepts(&wt, &c.ty) {
                        Ok(Variant::Maybe { elem: wt, inner: Some(Box::new(w)) })
                    } else {
                        Err(Error::TypeMismatch(wt))
                    }
                },
                Err(er) => Err(er),
            };
            proof {
                assert(enc_res_eq(r, spec_encode(value@, node@)));
            }
            r
        },
        Value::List(items) => {
            let r: Result<Variant, Error> = match &node.ty {
                VariantTy::Array(e) => {
                    proof {
                        assert(node@.ty == TyV::Array(Box::new(crate::ty::ty_view(**e))));
                        assert(value@ == ValueV::List(crate::value::values_view(items@)));
                    }
                    if is_fixed_width_ty(e) {
                        match encode_fixed(items, e, 0) {
                            Ok(ws) => {
                                proof {
                                    crate::value::lemma_values_view(items@);
                                    assert(crate::value::values_view(items@).subrange(
                                        0,
                                        items@.len() as int,
                                    ) =~= crate::value::values_view(items@));
                                    assert(spec_encode_fixed(
                                        crate::value::values_view(items@),
                                        crate::ty::ty_view(**e),
                                    ) == Ok::<Seq<VariantV>, ErrorV>(crate::variant::vars_view(ws@)));
                                    assert(spec_encode(value@, node@) == Ok::<VariantV, ErrorV>(
                                        VariantV::Array {
                                            elem: crate::ty::ty_view(**e),
                                            items: crate::variant::vars_view(ws@),
                                        },
                                    ));
                                }
                                Ok(Variant::Array { elem: e.duplicate(), items: ws })
                            },
                            Err(er) => {
                                proof {
                                    crate::value::lemma_values_view(items@);
                                    assert(crate::value::values_view(items@).subrange(
                                        0,
                                        items@.len() as int,
                                    ) =~= crate::value::values_view(items@));
                                }
                                Err(er)
                            },
                        }
                    } else {
                        let c = child_type_or_default(node, 0);
                        match encode_list(items, &c, e, 0) {
                            Ok(ws) => {
                                proof {
                                    crate::value::lemma_values_view(items@);
                                    assert(crate::value::values_view(items@).subrange(
                                        0,
                                        items@.len() as int,
                                    ) =~= crate::value::values_view(items@));
                                }
                                Ok(Variant::Array { elem: e.duplicate(), items: ws })
                            },
                            Err(er) => {
                                proof {
                                    crate::value::lemma_values_view(items@);
                                    assert(crate::value::values_view(items@).subrange(
                                        0,
                                        items@.len() as int,
                                    ) =~= crate::value::values_view(items@));
                                }
                                Err(er)
                            },
                        }
                    }
                },
                _ => {
                    proof {
                        crate::ty::lemma_ty_ctor(node.ty);
                    }
                    Err(Error::UnsupportedType(node.ty.duplicate()))
                },
            };
            proof {
                assert(enc_res_eq(r, spec_encode(value@, node@)));
            }
            r
        },
        Value::Tup(items) => {
            let r: Result<Variant, Error> = match encode_fields(items, node, 0) {
                Ok(ws) => Ok(Variant::Tuple(ws)),
                Err(er) => Err(er),
            };
            proof {
                assert(enc_res_eq(r, spec_encode(value@, node@)));
            }
            r
        },
        Value::MapOf(pairs) => {
            let r: Result<Variant, Error> = match &node.ty {
                VariantTy::Array(e) => {
                    let kc = child_type_or_default(node, 0);
                    let vc = child_type_or_default(node, 1);
                    match encode_pairs(pairs, &kc, &vc, e, 0) {
                        Ok(ws) => {
                            proof {
                                crate::value::lemma_pairs_view(pairs@);
                                assert(crate::value::pairs_view(pairs@).subrange(
                                    0,
                                    pairs@.len() as int,
                                ) =~= crate::value::pairs_view(pairs@));
                            }
                            Ok(Variant::Array { elem: e.duplicate(), items: ws })
                        },
                        Err(er) => {
                            proof {
                                crate::value::lemma_pairs_view(pairs@);
                                assert(crate::value::pairs_view(pairs@).subrange(
                                    0,
                                    pairs@.len() as int,
                                ) =~= crate::value::pairs_view(pairs@));
                            }
                            Err(er)
                        },
                    }
                },
                _ => {
                    proof {
                        crate::ty::lemma_ty_ctor(node.ty);
                    }
                    Err(Error::UnsupportedType(node.ty.duplicate()))
                },
            };
            proof {
                assert(enc_res_eq(r, spec_encode(value@, node@)));
            }
            r
        },
        Value::Newtype(x) => {
            let r = encode(x, node);
            proof {
                assert(enc_res_eq(r, spec_encode(value@, node@)));
            }
            r
        },
        Value::EnumVal { index, payload } => {
            let r: Result<Variant, Error> = match &node.tag {
                None => Err(Error::InvalidTag(node.ty.duplicate())),
                Some(scheme) => {
                    if (*index as usize) >= scheme.variants.len() {
                        Err(Error::InvalidTag(node.ty.duplicate()))
                    } else {
                    let entry = &scheme.variants[*index as usize];
                    match make_tag(scheme.mode, *index, &entry.name, entry.disc) {
                        Err(er) => Err(er),
                        Ok(tag) => {
                            match &node.ty {
                                VariantTy::Tuple(_) => {
                                    let pc = child_type_or_default(node, *index as usize);
                                    match encode_payload(payload, &pc) {
                                        Ok(pw) => {
                                            let mut parts: Vec<Variant> = Vec::new();
                                            let ghost tagv = tag@;
                                            let ghost pwv = pw@;
                                            parts.push(tag);
                                            parts.push(Variant::Boxed(Box::new(pw)));
                                            proof {
                                                crate::variant::lemma_vars_view(parts@);
                                                assert(crate::variant::vars_view(parts@) =~= seq![
                                                    tagv,
                                                    VariantV::Boxed(Box::new(pwv)),
                                                ]);
                                            }
                                            Ok(Variant::Tuple(parts))
                                        },
                                        Err(er) => Err(er),
                                    }
                                },
                                _ => {
                                    match payload {
                                        PayloadValue::Unit => Ok(tag),
                                        _ => Err(Error::UnsupportedType(node.ty.duplicate())),
                                    }
                                },
                            }
                        },
                    }
                    }
                },
            };
            proof {
                assert(enc_res_eq(r, spec_encode(value@, node@)));
            }
            r
        },
        Value::Wire(w) => {
            let r: Result<Variant, Error> = Ok(Variant::Boxed(Box::new(w.duplicate())));
            proof {
                assert(enc_res_eq(r, spec_encode(value@, node@)));
            }
            r
        },
    }
}

/// Encodes the elements of a generic array against the element node.
pub fn encode_list(
    items: &Vec<Value>,
    c: &VariantTypeNode,
    elem: &VariantTy,
    j: usize,
) -> (r: Result<Vec<Variant>, Error>)
    requires
        j <= items@.len(),
    ensures
        enc_list_eq(
            r,
            spec_encode_list(
                crate::value::values_view(items@).subrange(j as int, items@.len() as int),
                c@,
                elem@,
            ),
        ),
    decreases items, items@.len() - j, 0int,
{
    let ghost vv = crate::value::values_view(items@);
    let ghost sub = vv.subrange(j as int, items@.len() as int);
    proof {
        crate::value::lemma_values_view(items@);
    }
    if j == items.len() {
        let out: Vec<Variant> = Vec::new();
        proof {
            assert(crate::variant::vars_view(out@) =~= Seq::<VariantV>::empty());
        }
        return Ok(out);
    }
    proof {
        assert(sub[0] == value_view(items@[j as int]));
        assert(sub.subrange(1, sub.len() as int) =~= vv.subrange(
            j as int + 1,
            items@.len() as int,
        ));
    }
    match encode(&items[j], c) {
        Ok(w) => {
            let wt = w.type_();
            if !ty_accepts(&wt, elem) {
                return Err(Error::TypeMismatch(wt));
            }
            match encode_list(items, c, elem, j + 1) {
                Ok(ws) => {
                    let ghost wv = w@;
                    let mut out = ws;
                    out.insert(0, w);
                    proof {
                        crate::variant::lemma_vars_view(out@);
                        crate::variant::lemma_vars_view(out@.subrange(1, out@.len() as int));
                        assert(crate::variant::vars_view(out@) =~= seq![wv]
                            + crate::variant::vars_view(out@.subrange(1, out@.len() as int)));
                        assert(out@.subrange(1, out@.len() as int) =~= ws@);
                    }
                    Ok(out)
                },
                Err(er) => Err(er),
            }
        },
        Err(er) => Err(er),
    }
}

/// Encodes tuple or struct fields against the node's positional children.
pub fn encode_fields(items: &Vec<Value>, n: &VariantTypeNode, j: usize) -> (r: Result<
    Vec<Variant>,
    Error,
>)
    requires
        j <= items@.len(),
    ensures
        enc_list_eq(r, spec_encode_fields(crate::value::values_view(items@), n@, j as int)),
    decreases items, items@.len() - j, 0int,
{
    let ghost vv = crate::value::values_view(items@);
    proof {
        crate::value::lemma_values_view(items@);
    }
    if j == items.len() {
        let out: Vec<Variant> = Vec::new();
        proof {
            assert(crate::variant::vars_view(out@) =~= Seq::<VariantV>::empty());
        }
        return Ok(out);
    }
    let c = child_type_or_default(n, j);
    match encode(&items[j], &c) {
        Ok(w) => {
            match encode_fields(items, n, j + 1) {
                Ok(ws) => {
                    let ghost wv = w@;
                    let mut out = ws;
                    out.insert(0, w);
                    proof {
                        crate::variant::lemma_vars_view(out@);
                        crate::variant::lemma_vars_view(out@.subrange(1, out@.len() as int));
                        assert(crate::variant::vars_view(out@) =~= seq![wv]
                            + crate::variant::vars_view(out@.subrange(1, out@.len() as int)));
                        assert(out@.subrange(1, out@.len() as int) =~= ws@);
                    }
                    Ok(out)
                },
                Err(er) => Err(er),
            }
        },
        Err(er) => Err(er),
    }
}

/// Encodes map entries against the node's key and value children.
pub fn encode_pairs(
    pairs: &Vec<(Value, Value)>,
    kc: &VariantTypeNode,
    vc: &VariantTypeNode,
    elem: &VariantTy,
    j: usize,
) -> (r: Result<Vec<Variant>, Error>)
    requires
        j <= pairs@.len(),
    ensures
        enc_list_eq(
            r,
            spec_encode_pairs(
                crate::value::pairs_view(pairs@).subrange(j as int, pairs@.len() as int),
                kc@,
                vc@,
                elem@,
            ),
        ),
    decreases pairs, pairs@.len() - j, 0int,
{
    let ghost pv = crate::value::pairs_view(pairs@);
    let ghost sub = pv.subrange(j as int, pairs@.len() as int);
    proof {
        crate::value::lemma_pairs_view(pairs@);
    }
    if j == pairs.len() {
        let out: Vec<Variant> = Vec::new();
        proof {
            assert(crate::variant::vars_view(out@) =~= Seq::<VariantV>::empty());
        }
        return Ok(out);
    }
    proof {
        assert(sub[0] == (value_view(pairs@[j as int].0), value_view(pairs@[j as int].1)));
        assert(sub.subrange(1, sub.len() as int) =~= pv.subrange(
            j as int + 1,
            pairs@.len() as int,
        ));
    }
    let kw = match encode(&pairs[j].0, kc) {
        Ok(kw) => kw,
        Err(er) => {
            return Err(er);
        },
    };
    let vw = match encode(&pairs[j].1, vc) {
        Ok(vw) => vw,
        Err(er) => {
            return Err(er);
        },
    };
    let ent = Variant::Entry(Box::new(kw), Box::new(vw));
    let et = ent.type_();
    if !ty_accepts(&et, elem) {
        return Err(Error::TypeMismatch(et));
    }
    match encode_pairs(pairs, kc, vc, elem, j + 1) {
        Ok(ws) => {
            let ghost ev = ent@;
            let mut out = ws;
            out.insert(0, ent);
            proof {
                crate::variant::lemma_vars_view(out@);
                crate::variant::lemma_vars_view(out@.subrange(1, out@.len() as int));
                assert(crate::variant::vars_view(out@) =~= seq![ev] + crate::variant::vars_view(
                    out@.subrange(1, out@.len() as int),
                ));
                assert(out@.subrange(1, out@.len() as int) =~= ws@);
            }
            Ok(out)
        },
        Err(er) => Err(er),
    }
}

/// Encodes one enum variant's payload against the variant's node.
pub fn encode_payload(p: &PayloadValue, pc: &VariantTypeNode) -> (r: Result<Variant, Error>)
    ensures
        enc_res_eq(r, spec_encode_payload(p@, pc@)),
    decreases p, 2int,
{
    match p {
        PayloadValue::Unit => {
            let out: Vec<Variant> = Vec::new();
            proof {
                assert(crate::variant::vars_view(out@) =~= Seq::<VariantV>::empty());
            }
            Ok(Variant::Tuple(out))
        },
        PayloadValue::Newtype(x) => encode(x, pc),
        PayloadValue::Fields(xs) => {
            match encode_fields(xs, pc, 0) {
                Ok(ws) => Ok(Variant::Tuple(ws)),
                Err(er) => Err(er),
            }
        },
    }
}

/// Serializes a logical value at its shape into a wire value.  On any
/// value that fits a well-formed, packable shape this succeeds, and the
/// wire value carries the shape's static type.
pub fn to_variant(value: &Value, shape: &crate::shape::Shape) -> (r: Result<Variant, Error>)
    ensures
        enc_res_eq(r, spec_encode(value@, shape@.node())),
        value@.matches(shape@) && shape@.wf() && crate::laws::packable(shape@) ==> (r is Ok)
            && r->Ok_0@.ty() == shape@.ty() && r->Ok_0@.wf(),
{
    let node = crate::shape::variant_type(shape);
    let r = encode(value, &node);
    proof {
        if value@.matches(shape@) && shape@.wf() && crate::laws::packable(shape@) {
            crate::laws::lemma_round_trip(value@, shape@);
        }
    }
    r
}

} // verus!
