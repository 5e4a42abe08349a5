//! The decoder: a self-describing wire value becomes the logical value a
//! caller's shape requests.
//!
//! Dispatch is keyed on the wire value's own classification.  Integer
//! targets range-check and convert from any integer wire class; all three
//! string-like classes route to one string entry point, with path and
//! signature targets re-validating on receipt; tuples check arity; enums
//! read their tag per the shape's mode and re-decode the boxed payload
//! against the resolved variant's own shape.
//!
//! [`spec_decode`] is the normative description: the executable decoder
//! returns exactly what it says, error cases included.

use crate::error::{Error, ErrorV};
use crate::object_path::{is_valid_path, path_is_valid};
use crate::shape::{
    payload_shape_view, shape_view, EnumShape, EnumShapeV, PayloadShape, PayloadShapeV, Shape,
    ShapeV, VariantShapeV,
};
use crate::signature::{is_valid_signature, signature_is_valid};
use crate::ty::{TyV, VariantTy};
use crate::value::{payload_value_view, value_view, PayloadValue, PayloadValueV, Value, ValueV};
use crate::variant::{var_view, Variant, VariantV};
use crate::variant_type::TagMode;
use vstd::prelude::*;
use vstd::string::*;

verus! {

/// The integer carried by a wire value of an integer class.
pub open spec fn wire_int(w: VariantV) -> Option<int> {
    match w {
        VariantV::Byte(x) => Some(x as int),
        VariantV::Int16(x) => Some(x as int),
        VariantV::Uint16(x) => Some(x as int),
        VariantV::Int32(x) => Some(x as int),
        VariantV::Uint32(x) => Some(x as int),
        VariantV::Int64(x) => Some(x as int),
        VariantV::Uint64(x) => Some(x as int),
        _ => None,
    }
}

/// The characters carried by a string-like wire value: the plain,
/// object-path and signature classes all expose their text.
pub open spec fn wire_str(w: VariantV) -> Option<Seq<char>> {
    match w {
        VariantV::Str(s) => Some(s),
        VariantV::ObjPath(s) => Some(s),
        VariantV::Sig(s) => Some(s),
        _ => None,
    }
}

/// An integer target decoded from any integer wire class: out of range is
/// an overflow, a non-integer class is a mismatch.
pub open spec fn spec_decode_int(w: VariantV, lo: int, hi: int) -> Result<int, ErrorV> {
    match wire_int(w) {
        Some(x) => if lo <= x <= hi {
            Ok(x)
        } else {
            Err(ErrorV::IntegerOverflow)
        },
        None => Err(ErrorV::TypeMismatch(w.ty())),
    }
}

/// What the decoder produces for a wire value at a requested shape,
/// error cases included.
pub open spec fn spec_decode(w: VariantV, s: ShapeV) -> Result<ValueV, ErrorV>
    decreases w, s, 2int,
{
    match s {
        ShapeV::Bool => match w {
            VariantV::Bool(b) => Ok(ValueV::Bool(b)),
            _ => Err(ErrorV::TypeMismatch(w.ty())),
        },
        ShapeV::I8 => match spec_decode_int(w, -128, 127) {
            Ok(x) => Ok(ValueV::I8(x as i8)),
            Err(er) => Err(er),
        },
        ShapeV::I16 => match spec_decode_int(w, -0x8000, 0x7fff) {
            Ok(x) => Ok(ValueV::I16(x as i16)),
            Err(er) => Err(er),
        },
        ShapeV::I32 => match spec_decode_int(w, -0x8000_0000, 0x7fff_ffff) {
            Ok(x) => Ok(ValueV::I32(x as i32)),
            Err(er) => Err(er),
        },
        ShapeV::I64 => match spec_decode_int(
            w,
            -0x8000_0000_0000_0000,
            0x7fff_ffff_ffff_ffff,
        ) {
            Ok(x) => Ok(ValueV::I64(x as i64)),
            Err(er) => Err(er),
        },
        ShapeV::U8 => match spec_decode_int(w, 0, 255) {
            Ok(x) => Ok(ValueV::U8(x as u8)),
            Err(er) => Err(er),
        },
        ShapeV::U16 => match spec_decode_int(w, 0, 0xffff) {
            Ok(x) => Ok(ValueV::U16(x as u16)),
            Err(er) => Err(er),
        },
        ShapeV::U32 => match spec_decode_int(w, 0, 0xffff_ffff) {
            Ok(x) => Ok(ValueV::U32(x as u32)),
            Err(er) => Err(er),
        },
        ShapeV::U64 => match spec_decode_int(w, 0, 0xffff_ffff_ffff_ffff) {
            Ok(x) => Ok(ValueV::U64(x as u64)),
            Err(er) => Err(er),
        },
        ShapeV::F64 => match w {
            VariantV::Double(bits) => Ok(ValueV::F64(bits)),
            _ => Err(ErrorV::TypeMismatch(w.ty())),
        },
        ShapeV::Char => match wire_str(w) {
            Some(t) => if t.len() == 1 {
                Ok(ValueV::Char(t[0]))
            } else {
                Err(ErrorV::ExpectedChar(t))
            },
            None => Err(ErrorV::TypeMismatch(w.ty())),
        },
        ShapeV::Str => match wire_str(w) {
            Some(t) => Ok(ValueV::Str(t)),
            None => Err(ErrorV::TypeMismatch(w.ty())),
        },
        ShapeV::Path => match wire_str(w) {
            Some(t) => if is_valid_path(t) {
                Ok(ValueV::Path(t))
            } else {
                Err(ErrorV::ValidationFailure(t))
            },
            None => Err(ErrorV::TypeMismatch(w.ty())),
        },
        ShapeV::Sig => match wire_str(w) {
            Some(t) => if is_valid_signature(t) {
                Ok(ValueV::Sig(t))
            } else {
                Err(ErrorV::ValidationFailure(t))
            },
            None => Err(ErrorV::TypeMismatch(w.ty())),
        },
        ShapeV::Bytes => match w {
            VariantV::Array { elem: TyV::Byte, items } => match spec_unbytes(items) {
                Ok(bs) => Ok(ValueV::Bytes(bs)),
                Err(er) => Err(er),
            },
            _ => Err(ErrorV::TypeMismatch(w.ty())),
        },
        ShapeV::Unit => match w {
            VariantV::Tuple(items) => if items.len() == 0 {
                Ok(ValueV::Unit)
            } else {
                Err(ErrorV::LengthMismatch { expected: 0, actual: items.len() as int })
            },
            _ => Err(ErrorV::TypeMismatch(w.ty())),
        },
        ShapeV::Opt(e) => match w {
            VariantV::Maybe { elem, inner } => match inner {
                None => Ok(ValueV::OptNone),
                Some(x) => match spec_decode(*x, *e) {
                    Ok(v) => Ok(ValueV::OptSome(Box::new(v))),
                    Err(er) => Err(er),
                },
            },
            _ => Err(ErrorV::TypeMismatch(w.ty())),
        },
        ShapeV::List(e) => match w {
            VariantV::Array { elem, items } => match spec_decode_list(items, *e) {
                Ok(vs) => Ok(ValueV::List(vs)),
                Err(er) => Err(er),
            },
            _ => Err(ErrorV::TypeMismatch(w.ty())),
        },
        ShapeV::Tup(ss) => match w {
            VariantV::Tuple(items) => if items.len() != ss.len() {
                Err(
                    ErrorV::LengthMismatch {
                        expected: ss.len() as int,
                        actual: items.len() as int,
                    },
                )
            } else {
                match spec_decode_fields(items, ss) {
                    Ok(vs) => Ok(ValueV::Tup(vs)),
                    Err(er) => Err(er),
                }
            },
            _ => Err(ErrorV::TypeMismatch(w.ty())),
        },
        ShapeV::MapOf(k, v) => match w {
            VariantV::Array { elem, items } => match spec_decode_entries(items, *k, *v) {
                Ok(ps) => Ok(ValueV::MapOf(ps)),
                Err(er) => Err(er),
            },
            _ => Err(ErrorV::TypeMismatch(w.ty())),
        },
        ShapeV::Newtype(e) => match spec_decode(w, *e) {
            Ok(v) => Ok(ValueV::Newtype(Box::new(v))),
            Err(er) => Err(er),
        },
        ShapeV::Enum(es) => spec_decode_enum(w, es),
        ShapeV::Wire => match w {
            VariantV::Boxed(inner) => Ok(ValueV::Wire(*inner)),
            _ => Err(ErrorV::TypeMismatch(w.ty())),
        },
    }
}

/// The bytes of an array of byte wire values.
pub open spec fn spec_unbytes(items: Seq<VariantV>) -> Result<Seq<u8>, ErrorV>
    decreases items, ShapeV::Unit, 0int,
{
    if items.len() == 0 {
        Ok(Seq::empty())
    } else {
        match items[0] {
            VariantV::Byte(b) => match spec_unbytes(items.subrange(1, items.len() as int)) {
                Ok(bs) => Ok(seq![b] + bs),
                Err(er) => Err(er),
            },
            _ => Err(ErrorV::TypeMismatch(items[0].ty())),
        }
    }
}

/// Element-wise decoding of an array's children.
pub open spec fn spec_decode_list(items: Seq<VariantV>, e: ShapeV) -> Result<Seq<ValueV>, ErrorV>
    decreases items, e, 0int,
{
    if items.len() == 0 {
        Ok(Seq::empty())
    } else {
        match spec_decode(items[0], e) {
            Ok(v) => match spec_decode_list(items.subrange(1, items.len() as int), e) {
                Ok(vs) => Ok(seq![v] + vs),
                Err(er) => Err(er),
            },
            Err(er) => Err(er),
        }
    }
}

/// Positional decoding of a tuple's children, arity already checked.
pub open spec fn spec_decode_fields(items: Seq<VariantV>, ss: Seq<ShapeV>) -> Result<
    Seq<ValueV>,
    ErrorV,
>
    decreases items, ShapeV::Unit, 0int,
{
    if items.len() == 0 {
        Ok(Seq::empty())
    } else if ss.len() == 0 {
        Ok(Seq::empty())
    } else {
        match spec_decode(items[0], ss[0]) {
            Ok(v) => match spec_decode_fields(
                items.subrange(1, items.len() as int),
                ss.subrange(1, ss.len() as int),
            ) {
                Ok(vs) => Ok(seq![v] + vs),
                Err(er) => Err(er),
            },
            Err(er) => Err(er),
        }
    }
}

/// Entry-wise decoding of a dictionary: each child must be a dictionary
/// entry, whose key and value decode independently.
pub open spec fn spec_decode_entries(items: Seq<VariantV>, k: ShapeV, v: ShapeV) -> Result<
    Seq<(ValueV, ValueV)>,
    ErrorV,
>
    decreases items, k, 0int,
{
    if items.len() == 0 {
        Ok(Seq::empty())
    } else {
        match items[0] {
            VariantV::Entry(kw, vw) => match spec_decode(*kw, k) {
                Ok(kv) => match spec_decode(*vw, v) {
                    Ok(vv) => match spec_decode_entries(
                        items.subrange(1, items.len() as int),
                        k,
                        v,
                    ) {
                        Ok(ps) => Ok(seq![(kv, vv)] + ps),
                        Err(er) => Err(er),
                    },
                    Err(er) => Err(er),
                },
                Err(er) => Err(er),
            },
            _ => Err(ErrorV::TypeMismatch(items[0].ty())),
        }
    }
}

/// The declaration index of the variant with the given name.
pub open spec fn spec_find_name(vs: Seq<VariantShapeV>, name: Seq<char>, at: int) -> Option<int>
    decreases vs.len() - at,
{
    if at < 0 || at >= vs.len() {
        None
    } else if vs[at].name == name {
        Some(at)
    } else {
        spec_find_name(vs, name, at + 1)
    }
}

/// The declaration index of the variant with the given discriminant.
pub open spec fn spec_find_disc(vs: Seq<VariantShapeV>, disc: int, at: int) -> Option<int>
    decreases vs.len() - at,
{
    if at < 0 || at >= vs.len() {
        None
    } else if vs[at].disc == disc {
        Some(at)
    } else {
        spec_find_disc(vs, disc, at + 1)
    }
}

/// Reading the tag back: a string tag is looked up by name, an integer
/// tag by declaration index or by discriminant, per the configured mode.
/// An unrecognized or wrongly-classed tag is an invalid tag.
pub open spec fn spec_resolve_tag(tag: VariantV, es: EnumShapeV) -> Result<u32, ErrorV> {
    match es.tag {
        TagMode::Name => match wire_str(tag) {
            Some(nm) => match spec_find_name(es.variants, nm, 0) {
                Some(i) => if i <= 0xffff_ffff {
                    Ok(i as u32)
                } else {
                    Err(ErrorV::InvalidTag(tag.ty()))
                },
                None => Err(ErrorV::InvalidTag(tag.ty())),
            },
            None => Err(ErrorV::InvalidTag(tag.ty())),
        },
        TagMode::Ordinal(_) => match wire_int(tag) {
            Some(x) => if 0 <= x < es.variants.len() && x <= 0xffff_ffff {
                Ok(x as u32)
            } else {
                Err(ErrorV::InvalidTag(tag.ty()))
            },
            None => Err(ErrorV::InvalidTag(tag.ty())),
        },
        TagMode::Repr(_) => match wire_int(tag) {
            Some(x) => match spec_find_disc(es.variants, x, 0) {
                Some(i) => if i <= 0xffff_ffff {
                    Ok(i as u32)
                } else {
                    Err(ErrorV::InvalidTag(tag.ty()))
                },
                None => Err(ErrorV::InvalidTag(tag.ty())),
            },
            None => Err(ErrorV::InvalidTag(tag.ty())),
        },
    }
}

/// The enum read path: a bare scalar carries a unit variant's tag alone;
/// a pair of tag and dynamic box carries any variant, the box re-decoded
/// against the resolved variant's own payload shape.
pub open spec fn spec_decode_enum(w: VariantV, es: EnumShapeV) -> Result<ValueV, ErrorV>
    decreases w, ShapeV::Enum(es), 1int,
{
    match w {
        VariantV::Tuple(items) => if items.len() != 2 {
            Err(ErrorV::UnsupportedType(w.ty()))
        } else {
            match items[1] {
                VariantV::Boxed(p) => match spec_resolve_tag(items[0], es) {
                    Ok(index) => if index as int >= es.variants.len() {
                        Err(ErrorV::InvalidTag(items[0].ty()))
                    } else {
                        match spec_decode_payload(*p, es.variants[index as int].payload) {
                            Ok(pv) => Ok(ValueV::EnumVal { index, payload: pv }),
                            Err(er) => Err(er),
                        }
                    },
                    Err(er) => Err(er),
                },
                _ => Err(ErrorV::UnsupportedType(w.ty())),
            }
        },
        _ => match spec_resolve_tag(w, es) {
            Ok(index) => if index as int >= es.variants.len() {
                Err(ErrorV::InvalidTag(w.ty()))
            } else if es.variants[index as int].payload is Unit {
                Ok(ValueV::EnumVal { index, payload: PayloadValueV::Unit })
            } else {
                Err(ErrorV::UnsupportedType(w.ty()))
            },
            Err(er) => Err(er),
        },
    }
}

/// A payload shape seen as a plain shape, used as a termination measure.
pub open spec fn payload_as_shape(ps: PayloadShapeV) -> ShapeV {
    match ps {
        PayloadShapeV::Unit => ShapeV::Unit,
        PayloadShapeV::Newtype(e) => ShapeV::Newtype(e),
        PayloadShapeV::Fields(ss) => ShapeV::Tup(ss),
    }
}

/// Decoding of one boxed enum payload against the variant's payload
/// shape: a unit payload expects the empty tuple, a single field is
/// transparent, fields re-use the tuple path with an arity check.
pub open spec fn spec_decode_payload(p: VariantV, ps: PayloadShapeV) -> Result<
    PayloadValueV,
    ErrorV,
>
    decreases p, payload_as_shape(ps), 0int,
{
    match ps {
        PayloadShapeV::Unit => match p {
            VariantV::Tuple(items) => if items.len() == 0 {
                Ok(PayloadValueV::Unit)
            } else {
                Err(ErrorV::LengthMismatch { expected: 0, actual: items.len() as int })
            },
            _ => Err(ErrorV::TypeMismatch(p.ty())),
        },
        PayloadShapeV::Newtype(e) => {
            proof {
                assert(payload_as_shape(ps) == ShapeV::Newtype(e));
                assert(decreases_to!(payload_as_shape(ps) => *e));
            }
            match spec_decode(p, *e) {
                Ok(v) => Ok(PayloadValueV::Newtype(Box::new(v))),
                Err(er) => Err(er),
            }
        },
        PayloadShapeV::Fields(ss) => match p {
            VariantV::Tuple(items) => if items.len() != ss.len() {
                Err(
                    ErrorV::LengthMismatch {
                        expected: ss.len() as int,
                        actual: items.len() as int,
                    },
                )
            } else {
                match spec_decode_fields(items, ss) {
                    Ok(vs) => Ok(PayloadValueV::Fields(vs)),
                    Err(er) => Err(er),
                }
            },
            _ => Err(ErrorV::TypeMismatch(p.ty())),
        },
    }
}

/// The executable result agrees with the specified one, case by case.
pub open spec fn dec_res_eq(r: Result<Value, Error>, s: Result<ValueV, ErrorV>) -> bool {
    match r {
        Ok(v) => s is Ok && v@ == s->Ok_0,
        Err(e) => s is Err && e@ == s->Err_0,
    }
}

/// A wire value and its mathematical value sit in the same constructor.
pub proof fn lemma_var_ctor(v: Variant)
    ensures
        (var_view(v) is Bool <==> v is Bool),
        (var_view(v) is Byte <==> v is Byte),
        (var_view(v) is Int16 <==> v is Int16),
        (var_view(v) is Uint16 <==> v is Uint16),
        (var_view(v) is Int32 <==> v is Int32),
        (var_view(v) is Uint32 <==> v is Uint32),
        (var_view(v) is Int64 <==> v is Int64),
        (var_view(v) is Uint64 <==> v is Uint64),
        (var_view(v) is Double <==> v is Double),
        (var_view(v) is Str <==> v is Str),
        (var_view(v) is ObjPath <==> v is ObjPath),
        (var_view(v) is Sig <==> v is Sig),
        (var_view(v) is Maybe <==> v is Maybe),
        (var_view(v) is Array <==> v is Array),
        (var_view(v) is Tuple <==> v is Tuple),
        (var_view(v) is Entry <==> v is Entry),
        (var_view(v) is Boxed <==> v is Boxed),
{
    match v {
        Variant::Bool(_) => {},
        Variant::Byte(_) => {},
        Variant::Int16(_) => {},
        Variant::Uint16(_) => {},
        Variant::Int32(_) => {},
        Variant::Uint32(_) => {},
        Variant::Int64(_) => {},
        Variant::Uint64(_) => {},
        Variant::Double(_) => {},
        Variant::Str(_) => {},
        Variant::ObjPath(_) => {},
        Variant::Sig(_) => {},
        Variant::Maybe { elem: _, inner: _ } => {},
        Variant::Array { elem: _, items: _ } => {},
        Variant::Tuple(_) => {},
        Variant::Entry(_, _) => {},
        Variant::Boxed(_) => {},
    }
}

/// The integer carried by an integer-classed wire value.
pub fn wire_int_of(w: &Variant) -> (r: Option<i128>)
    ensures
        match r {
            Some(x) => wire_int(w@) == Some(x as int),
            None => wire_int(w@) is None,
        },
{
    proof {
        lemma_var_ctor(*w);
    }
    match w {
        Variant::Byte(x) => Some(*x as i128),
        Variant::Int16(x) => Some(*x as i128),
        Variant::Uint16(x) => Some(*x as i128),
        Variant::Int32(x) => Some(*x as i128),
        Variant::Uint32(x) => Some(*x as i128),
        Variant::Int64(x) => Some(*x as i128),
        Variant::Uint64(x) => Some(*x as i128),
        _ => None,
    }
}

/// The text carried by a string-like wire value.
pub fn wire_str_of<'a>(w: &'a Variant) -> (r: Option<&'a String>)
    ensures
        match r {
            Some(t) => wire_str(w@) == Some(t@),
            None => wire_str(w@) is None,
        },
{
    proof {
        lemma_var_ctor(*w);
    }
    match w {
        Variant::Str(t) => Some(t),
        Variant::ObjPath(t) => Some(t),
        Variant::Sig(t) => Some(t),
        _ => None,
    }
}

/// An integer target decoded from any integer wire class, with the
/// requested range checked.
pub fn decode_int(w: &Variant, lo: i128, hi: i128) -> (r: Result<i128, Error>)
    ensures
        match r {
            Ok(x) => spec_decode_int(w@, lo as int, hi as int) == Ok::<int, ErrorV>(x as int)
                && lo <= x <= hi,
            Err(e) => spec_decode_int(w@, lo as int, hi as int) is Err && e@ == spec_decode_int(
                w@,
                lo as int,
                hi as int,
            )->Err_0,
        },
{
    match wire_int_of(w) {
        Some(x) => {
            if lo <= x && x <= hi {
                Ok(x)
            } else {
                Err(Error::IntegerOverflow)
            }
        },
        None => {
            let t = w.type_();
            Err(Error::TypeMismatch(t))
        },
    }
}

/// Decodes a wire value at a requested shape, producing a logical value
/// or the error [`spec_decode`] prescribes.
pub fn decode(w: &Variant, s: &Shape) -> (r: Result<Value, Error>)
    ensures
        dec_res_eq(r, spec_decode(w@, s@)),
    decreases w, shape_view(*s), 2int,
{
    proof {
        lemma_var_ctor(*w);
    }
    match s {
        Shape::Bool => {
            let r: Result<Value, Error> = match w {
                Variant::Bool(b) => Ok(Value::Bool(*b)),
                _ => Err(Error::TypeMismatch(w.type_())),
            };
            proof {
                assert(dec_res_eq(r, spec_decode(w@, s@)));
            }
            r
        },
        Shape::I8 => {
            let r: Result<Value, Error> = match decode_int(w, -128, 127) {
                Ok(x) => Ok(Value::I8(x as i8)),
                Err(er) => Err(er),
            };
            proof {
                assert(dec_res_eq(r, spec_decode(w@, s@)));
            }
            r
        },
        Shape::I16 => {
            let r: Result<Value, Error> = match decode_int(w, -0x8000, 0x7fff) {
                Ok(x) => Ok(Value::I16(x as i16)),
                Err(er) => Err(er),
            };
            proof {
                assert(dec_res_eq(r, spec_decode(w@, s@)));
            }
            r
        },
        Shape::I32 => {
            let r: Result<Value, Error> = match decode_int(w, -0x8000_0000, 0x7fff_ffff) {
                Ok(x) => Ok(Value::I32(x as i32)),
                Err(er) => Err(er),
            };
            proof {
                assert(dec_res_eq(r, spec_decode(w@, s@)));
            }
            r
        },
        Shape::I64 => {
            let r: Result<Value, Error> = match decode_int(w, -0x8000_0000_0000_0000, 0x7fff_ffff_ffff_ffff) {
                Ok(x) => Ok(Value::I64(x as i64)),
                Err(er) => Err(er),
            };
            proof {
                assert(dec_res_eq(r, spec_decode(w@, s@)));
            }
            r
        },
        Shape::U8 => {
            let r: Result<Value, Error> = match decode_int(w, 0, 255) {
                Ok(x) => Ok(Value::U8(x as u8)),
                Err(er) => Err(er),
            };
            proof {
                assert(dec_res_eq(r, spec_decode(w@, s@)));
            }
            r
        },
        Shape::U16 => {
            let r: Result<Value, Error> = match decode_int(w, 0, 0xffff) {
                Ok(x) => Ok(Value::U16(x as u16)),
                Err(er) => Err(er),
            };
            proof {
                assert(dec_res_eq(r, spec_decode(w@, s@)));
            }
            r
        },
        Shape::U32 => {
            let r: Result<Value, Error> = match decode_int(w, 0, 0xffff_ffff) {
                Ok(x) => Ok(Value::U32(x as u32)),
                Err(er) => Err(er),
            };
            proof {
                assert(dec_res_eq(r, spec_decode(w@, s@)));
            }
            r
        },
        Shape::U64 => {
            let r: Result<Value, Error> = match decode_int(w, 0, 0xffff_ffff_ffff_ffff) {
                Ok(x) => Ok(Value::U64(x as u64)),
                Err(er) => Err(er),
            };
            proof {
                assert(dec_res_eq(r, spec_decode(w@, s@)));
            }
            r
        },
        Shape::F64 => {
            let r: Result<Value, Error> = match w {
                Variant::Double(bits) => Ok(Value::F64(*bits)),
                _ => Err(Error::TypeMismatch(w.type_())),
            };
            proof {
                assert(dec_res_eq(r, spec_decode(w@, s@)));
            }
            r
        },
        Shape::Char => {
            let r: Result<Value, Error> = match wire_str_of(w) {
                Some(t) => {
                    if t.unicode_len() == 1 {
                        Ok(Value::Char(t.as_str().get_char(0)))
                    } else {
                        Err(Error::ExpectedChar(t.clone()))
                    }
                },
                None => Err(Error::TypeMismatch(w.type_())),
            };
            proof {
                assert(dec_res_eq(r, spec_decode(w@, s@)));
            }
            r
        },
        Shape::Str => {
            let r: Result<Value, Error> = match wire_str_of(w) {
                Some(t) => Ok(Value::Str(t.clone())),
                None => Err(Error::TypeMismatch(w.type_())),
            };
            proof {
                assert(dec_res_eq(r, spec_decode(w@, s@)));
            }
            r
        },
        Shape::Path => {
            let r: Result<Value, Error> = match wire_str_of(w) {
                Some(t) => {
                    if path_is_valid(t.as_str()) {
                        Ok(Value::Path(t.clone()))
                    } else {
                        Err(Error::ValidationFailure(t.clone()))
                    }
                },
                None => Err(Error::TypeMismatch(w.type_())),
            };
            proof {
                assert(dec_res_eq(r, spec_decode(w@, s@)));
            }
            r
        },
        Shape::Sig => {
            let r: Result<Value, Error> = match wire_str_of(w) {
                Some(t) => {
                    if signature_is_valid(t.as_str()) {
                        Ok(Value::Sig(t.clone()))
                    } else {
                        Err(Error::ValidationFailure(t.clone()))
                    }
                },
                None => Err(Error::TypeMismatch(w.type_())),
            };
            proof {
                assert(dec_res_eq(r, spec_decode(w@, s@)));
            }
            r
        },
        Shape::Bytes => {
            let r: Result<Value, Error> = match w {
            Variant::Array { elem, items } => match elem {
                VariantTy::Byte => {
                    proof {
                        crate::variant::lemma_vars_view(items@);
                        assert(crate::variant::vars_view(items@).subrange(
                            0,
                            items@.len() as int,
                        ) =~= crate::variant::vars_view(items@));
                    }
                    match unbytes(items, 0) {
                        Ok(bs) => Ok(Value::Bytes(bs)),
                        Err(er) => Err(er),
                    }
                },
                _ => {
                    proof {
                        crate::ty::lemma_ty_ctor(*elem);
                    }
                    Err(Error::TypeMismatch(w.type_()))
                },
            },
            _ => Err(Error::TypeMismatch(w.type_())),
            };
            proof {
                assert(dec_res_eq(r, spec_decode(w@, s@)));
            }
            r
        },
        Shape::Unit => {
            let r: Result<Value, Error> = match w {
                Variant::Tuple(items) => {
                    proof {
                        crate::variant::lemma_vars_view(items@);
                    }
                    if items.len() == 0 {
                        Ok(Value::Unit)
                    } else {
                        Err(Error::LengthMismatch { expected: 0, actual: items.len() })
                    }
                },
                _ => Err(Error::TypeMismatch(w.type_())),
            };
            proof {
                assert(dec_res_eq(r, spec_decode(w@, s@)));
            }
            r
        },
        Shape::Opt(e) => {
            let r: Result<Value, Error> = match w {
                Variant::Maybe { elem, inner } => match inner {
                    None => Ok(Value::OptNone),
                    Some(x) => match decode(x, e) {
                        Ok(v) => Ok(Value::OptSome(Box::new(v))),
                        Err(er) => Err(er),
                    },
                },
                _ => Err(Error::TypeMismatch(w.type_())),
            };
            proof {
                assert(dec_res_eq(r, spec_decode(w@, s@)));
            }
            r
        },
        Shape::List(e) => {
            let r: Result<Value, Error> = match w {
            Variant::Array { elem, items } => {
                match decode_list(items, e, 0) {
                    Ok(vs) => {
                        proof {
                            crate::variant::lemma_vars_view(items@);
                            assert(crate::variant::vars_view(items@).subrange(
                                0,
                                items@.len() as int,
                            ) =~= crate::variant::vars_view(items@));
                        }
                        Ok(Value::List(vs))
                    },
                    Err(er) => {
                        proof {
                            crate::variant::lemma_vars_view(items@);
                            assert(crate::variant::vars_view(items@).subrange(
                                0,
                                items@.len() as int,
                            ) =~= crate::variant::vars_view(items@));
                        }
                        Err(er)
                    },
                }
            },
            _ => Err(Error::TypeMismatch(w.type_())),
            };
            proof {
                assert(dec_res_eq(r, spec_decode(w@, s@)));
            }
            r
        },
        Shape::Tup(ss) => {
            let r: Result<Value, Error> = match w {
            Variant::Tuple(items) => {
                if items.len() != ss.len() {
                    proof {
                        crate::variant::lemma_vars_view(items@);
                        crate::shape::lemma_shapes_view(ss@);
                    }
                    Err(Error::LengthMismatch { expected: ss.len(), actual: items.len() })
                } else {
                    match decode_fields(items, ss, 0) {
                        Ok(vs) => {
                            proof {
                                lemma_full_ranges(items@, ss@);
                            }
                            Ok(Value::Tup(vs))
                        },
                        Err(er) => {
                            proof {
                                lemma_full_ranges(items@, ss@);
                            }
                            Err(er)
                        },
                    }
                }
            },
            _ => Err(Error::TypeMismatch(w.type_())),
            };
            proof {
                assert(dec_res_eq(r, spec_decode(w@, s@)));
            }
            r
        },
        Shape::MapOf(k, v) => {
            let r: Result<Value, Error> = match w {
            Variant::Array { elem, items } => {
                match decode_entries(items, k, v, 0) {
                    Ok(ps) => {
                        proof {
                            crate::variant::lemma_vars_view(items@);
                            assert(crate::variant::vars_view(items@).subrange(
                                0,
                                items@.len() as int,
                            ) =~= crate::variant::vars_view(items@));
                        }
                        Ok(Value::MapOf(ps))
                    },
                    Err(er) => {
                        proof {
                            crate::variant::lemma_vars_view(items@);
                            assert(crate::variant::vars_view(items@).subrange(
                                0,
                                items@.len() as int,
                            ) =~= crate::variant::vars_view(items@));
                        }
                        Err(er)
                    },
                }
            },
            _ => Err(Error::TypeMismatch(w.type_())),
            };
            proof {
                assert(dec_res_eq(r, spec_decode(w@, s@)));
            }
            r
        },
        Shape::Newtype(e) => {
            let r: Result<Value, Error> = match decode(w, e) {
                Ok(v) => Ok(Value::Newtype(Box::new(v))),
                Err(er) => Err(er),
            };
            proof {
                assert(dec_res_eq(r, spec_decode(w@, s@)));
            }
            r
        },
        Shape::Enum(es) => {
            let r = decode_enum(w, es);
            proof {
                assert(s@ == ShapeV::Enum(enum_shape_v(es)));
                assert(spec_decode(w@, s@) == spec_decode_enum(w@, enum_shape_v(es)));
            }
            r
        },
        Shape::Wire => {
            let r: Result<Value, Error> = match w {
                Variant::Boxed(inner) => Ok(Value::Wire(inner.duplicate())),
                _ => Err(Error::TypeMismatch(w.type_())),
            };
            proof {
                assert(dec_res_eq(r, spec_decode(w@, s@)));
            }
            r
        },
    }
}

/// Both views of a tuple's pieces cover their full ranges.
pub proof fn lemma_full_ranges(items: Seq<Variant>, ss: Seq<Shape>)
    ensures
        crate::variant::vars_view(items).subrange(0, items.len() as int)
            =~= crate::variant::vars_view(items),
        crate::shape::shapes_view(ss).subrange(0, ss.len() as int) =~= crate::shape::shapes_view(
            ss,
        ),
        crate::variant::vars_view(items).len() == items.len(),
        crate::shape::shapes_view(ss).len() == ss.len(),
{
    crate::variant::lemma_vars_view(items);
    crate::shape::lemma_shapes_view(ss);
}

/// The bytes of an array of byte wire values, from position `j` on.
pub fn unbytes(items: &Vec<Variant>, j: usize) -> (r: Result<Vec<u8>, Error>)
    requires
        j <= items@.len(),
    ensures
        match r {
            Ok(bs) => spec_unbytes(
                crate::variant::vars_view(items@).subrange(j as int, items@.len() as int),
            ) == Ok::<Seq<u8>, ErrorV>(bs@),
            Err(e) => spec_unbytes(
                crate::variant::vars_view(items@).subrange(j as int, items@.len() as int),
            ) is Err && e@ == spec_unbytes(
                crate::variant::vars_view(items@).subrange(j as int, items@.len() as int),
            )->Err_0,
        },
    decreases items@.len() - j,
{
    let ghost vv = crate::variant::vars_view(items@);
    let ghost sub = vv.subrange(j as int, items@.len() as int);
    proof {
        crate::variant::lemma_vars_view(items@);
    }
    if j == items.len() {
        let out: Vec<u8> = Vec::new();
        return Ok(out);
    }
    proof {
        assert(sub[0] == var_view(items@[j as int]));
        assert(sub.subrange(1, sub.len() as int) =~= vv.subrange(
            j as int + 1,
            items@.len() as int,
        ));
        lemma_var_ctor(items@[j as int]);
    }
    match &items[j] {
        Variant::Byte(b) => {
            match unbytes(items, j + 1) {
                Ok(bs) => {
                    let mut out = bs;
                    out.insert(0, *b);
                    proof {
                        assert(out@ =~= seq![items@[j as int]->Byte_0] + out@.subrange(
                            1,
                            out@.len() as int,
                        ));
                        assert(out@.subrange(1, out@.len() as int) =~= bs@);
                    }
                    Ok(out)
                },
                Err(er) => Err(er),
            }
        },
        _ => Err(Error::TypeMismatch(items[j].type_())),
    }
}

/// Decodes each child of a generic array at the element shape.
pub fn decode_list(items: &Vec<Variant>, e: &Shape, j: usize) -> (r: Result<Vec<Value>, Error>)
    requires
        j <= items@.len(),
    ensures
        match r {
            Ok(vs) => spec_decode_list(
                crate::variant::vars_view(items@).subrange(j as int, items@.len() as int),
                e@,
            ) == Ok::<Seq<ValueV>, ErrorV>(crate::value::values_view(vs@)),
            Err(er) => spec_decode_list(
                crate::variant::vars_view(items@).subrange(j as int, items@.len() as int),
                e@,
            ) is Err && er@ == spec_decode_list(
                crate::variant::vars_view(items@).subrange(j as int, items@.len() as int),
                e@,
            )->Err_0,
        },
    decreases items, shape_view(*e), items@.len() - j,
{
    let ghost vv = crate::variant::vars_view(items@);
    let ghost sub = vv.subrange(j as int, items@.len() as int);
    proof {
        crate::variant::lemma_vars_view(items@);
    }
    if j == items.len() {
        let out: Vec<Value> = Vec::new();
        proof {
            assert(crate::value::values_view(out@) =~= Seq::<ValueV>::empty());
        }
        return Ok(out);
    }
    proof {
        assert(sub[0] == var_view(items@[j as int]));
        assert(sub.subrange(1, sub.len() as int) =~= vv.subrange(
            j as int + 1,
            items@.len() as int,
        ));
    }
    match decode(&items[j], e) {
        Ok(v) => {
            match decode_list(items, e, j + 1) {
                Ok(vs) => {
                    let ghost vvv = v@;
                    let mut out = vs;
                    out.insert(0, v);
                    proof {
                        crate::value::lemma_values_view(out@);
                        crate::value::lemma_values_view(out@.subrange(1, out@.len() as int));
                        assert(crate::value::values_view(out@) =~= seq![vvv]
                            + crate::value::values_view(out@.subrange(1, out@.len() as int)));
                        assert(out@.subrange(1, out@.len() as int) =~= vs@);
                    }
                    Ok(out)
                },
                Err(er) => Err(er),
            }
        },
        Err(er) => Err(er),
    }
}

/// Decodes a tuple's children positionally against the field shapes.
pub fn decode_fields(items: &Vec<Variant>, ss: &Vec<Shape>, j: usize) -> (r: Result<
    Vec<Value>,
    Error,
>)
    requires
        j <= items@.len(),
        j <= ss@.len(),
    ensures
        match r {
            Ok(vs) => spec_decode_fields(
                crate::variant::vars_view(items@).subrange(j as int, items@.len() as int),
                crate::shape::shapes_view(ss@).subrange(j as int, ss@.len() as int),
            ) == Ok::<Seq<ValueV>, ErrorV>(crate::value::values_view(vs@)),
            Err(er) => spec_decode_fields(
                crate::variant::vars_view(items@).subrange(j as int, items@.len() as int),
                crate::shape::shapes_view(ss@).subrange(j as int, ss@.len() as int),
            ) is Err && er@ == spec_decode_fields(
                crate::variant::vars_view(items@).subrange(j as int, items@.len() as int),
                crate::shape::shapes_view(ss@).subrange(j as int, ss@.len() as int),
            )->Err_0,
        },
    decreases items, ShapeV::Tup(crate::shape::shapes_view(ss@)), items@.len() - j,
{
    let ghost vv = crate::variant::vars_view(items@);
    let ghost sv = crate::shape::shapes_view(ss@);
    let ghost sub = vv.subrange(j as int, items@.len() as int);
    let ghost ssub = sv.subrange(j as int, ss@.len() as int);
    proof {
        crate::variant::lemma_vars_view(items@);
        crate::shape::lemma_shapes_view(ss@);
    }
    if j == items.len() {
        let out: Vec<Value> = Vec::new();
        proof {
            assert(crate::value::values_view(out@) =~= Seq::<ValueV>::empty());
        }
        return Ok(out);
    }
    proof {
        assert(sub[0] == var_view(items@[j as int]));
        assert(sub.subrange(1, sub.len() as int) =~= vv.subrange(
            j as int + 1,
            items@.len() as int,
        ));
        if j < ss@.len() {
            assert(ssub[0] == shape_view(ss@[j as int]));
            assert(ssub.subrange(1, ssub.len() as int) =~= sv.subrange(
                j as int + 1,
                ss@.len() as int,
            ));
        }
    }
    if j >= ss.len() {
        let out: Vec<Value> = Vec::new();
        proof {
            assert(crate::value::values_view(out@) =~= Seq::<ValueV>::empty());
            assert(ssub.len() == 0);
        }
        return Ok(out);
    }
    match decode(&items[j], &ss[j]) {
        Ok(v) => {
            match decode_fields(items, ss, j + 1) {
                Ok(vs) => {
                    let ghost vvv = v@;
                    let mut out = vs;
                    out.insert(0, v);
                    proof {
                        crate::value::lemma_values_view(out@);
                        crate::value::lemma_values_view(out@.subrange(1, out@.len() as int));
                        assert(crate::value::values_view(out@) =~= seq![vvv]
                            + crate::value::values_view(out@.subrange(1, out@.len() as int)));
                        assert(out@.subrange(1, out@.len() as int) =~= vs@);
                    }
                    Ok(out)
                },
                Err(er) => Err(er),
            }
        },
        Err(er) => Err(er),
    }
}

/// Decodes a dictionary's entries at the key and value shapes.
pub fn decode_entries(items: &Vec<Variant>, k: &Shape, v: &Shape, j: usize) -> (r: Result<
    Vec<(Value, Value)>,
    Error,
>)
    requires
        j <= items@.len(),
    ensures
        match r {
            Ok(ps) => spec_decode_entries(
                crate::variant::vars_view(items@).subrange(j as int, items@.len() as int),
                k@,
                v@,
            ) == Ok::<Seq<(ValueV, ValueV)>, ErrorV>(crate::value::pairs_view(ps@)),
            Err(er) => spec_decode_entries(
                crate::variant::vars_view(items@).subrange(j as int, items@.len() as int),
                k@,
                v@,
            ) is Err && er@ == spec_decode_entries(
                crate::variant::vars_view(items@).subrange(j as int, items@.len() as int),
                k@,
                v@,
            )->Err_0,
        },
    decreases items, shape_view(*k), items@.len() - j,
{
    let ghost vv = crate::variant::vars_view(items@);
    let ghost sub = vv.subrange(j as int, items@.len() as int);
    proof {
        crate::variant::lemma_vars_view(items@);
    }
    if j == items.len() {
        let out: Vec<(Value, Value)> = Vec::new();
        proof {
            assert(crate::value::pairs_view(out@) =~= Seq::<(ValueV, ValueV)>::empty());
        }
        return Ok(out);
    }
    proof {
        assert(sub[0] == var_view(items@[j as int]));
        assert(sub.subrange(1, sub.len() as int) =~= vv.subrange(
            j as int + 1,
            items@.len() as int,
        ));
        lemma_var_ctor(items@[j as int]);
    }
    match &items[j] {
        Variant::Entry(kw, vw) => {
            let kv = match decode(kw, k) {
                Ok(kv) => kv,
                Err(er) => {
                    return Err(er);
                },
            };
            let vv2 = match decode(vw, v) {
                Ok(vv2) => vv2,
                Err(er) => {
                    return Err(er);
                },
            };
            match decode_entries(items, k, v, j + 1) {
                Ok(ps) => {
                    let ghost kvv = kv@;
                    let ghost vvv = vv2@;
                    let mut out = ps;
                    out.insert(0, (kv, vv2));
                    proof {
                        crate::value::lemma_pairs_view(out@);
                        crate::value::lemma_pairs_view(out@.subrange(1, out@.len() as int));
                        assert(crate::value::pairs_view(out@) =~= seq![(kvv, vvv)]
                            + crate::value::pairs_view(out@.subrange(1, out@.len() as int)));
                        assert(out@.subrange(1, out@.len() as int) =~= ps@);
                    }
                    Ok(out)
                },
                Err(er) => Err(er),
            }
        },
        _ => Err(Error::TypeMismatch(items[j].type_())),
    }
}

/// The declaration index of the variant named `name`, scanning from `at`.
pub fn find_name(vs: &Vec<crate::shape::VariantShape>, name: &String, at: usize) -> (r: Option<
    usize,
>)
    requires
        at <= vs@.len(),
    ensures
        match r {
            Some(i) => at <= i < vs@.len() && spec_find_name(
                crate::shape::variant_shapes_view(vs@),
                name@,
                at as int,
            ) == Some(i as int),
            None => spec_find_name(
                crate::shape::variant_shapes_view(vs@),
                name@,
                at as int,
            ) is None,
        },
    decreases vs@.len() - at,
{
    proof {
        crate::shape::lemma_variant_shapes_view(vs@);
    }
    if at == vs.len() {
        return None;
    }
    if vs[at].name.eq(name) {
        Some(at)
    } else {
        find_name(vs, name, at + 1)
    }
}

/// The declaration index of the variant with discriminant `disc`,
/// scanning from `at`.
pub fn find_disc(vs: &Vec<crate::shape::VariantShape>, disc: i128, at: usize) -> (r: Option<usize>)
    requires
        at <= vs@.len(),
    ensures
        match r {
            Some(i) => at <= i < vs@.len() && spec_find_disc(
                crate::shape::variant_shapes_view(vs@),
                disc as int,
                at as int,
            ) == Some(i as int),
            None => spec_find_disc(
                crate::shape::variant_shapes_view(vs@),
                disc as int,
                at as int,
            ) is None,
        },
    decreases vs@.len() - at,
{
    proof {
        crate::shape::lemma_variant_shapes_view(vs@);
    }
    if at == vs.len() {
        return None;
    }
    if vs[at].disc as i128 == disc {
        Some(at)
    } else {
        find_disc(vs, disc, at + 1)
    }
}

/// Reads an enum tag back to a declaration index, per the shape's mode.
pub fn resolve_tag(tag: &Variant, es: &EnumShape) -> (r: Result<u32, Error>)
    ensures
        match r {
            Ok(i) => spec_resolve_tag(tag@, enum_shape_v(es)) == Ok::<u32, ErrorV>(i) && (
            i as int) < es.variants@.len(),
            Err(er) => spec_resolve_tag(tag@, enum_shape_v(es)) is Err && er@ == spec_resolve_tag(
                tag@,
                enum_shape_v(es),
            )->Err_0,
        },
{
    proof {
        crate::shape::lemma_variant_shapes_view(es.variants@);
    }
    match es.tag {
        TagMode::Name => match wire_str_of(tag) {
            Some(nm) => match find_name(&es.variants, nm, 0) {
                Some(i) => {
                    proof {
                        lemma_find_name_bound(
                            crate::shape::variant_shapes_view(es.variants@),
                            nm@,
                            0,
                        );
                    }
                    if i <= 0xffff_ffff {
                        Ok(i as u32)
                    } else {
                        Err(Error::InvalidTag(tag.type_()))
                    }
                },
                None => Err(Error::InvalidTag(tag.type_())),
            },
            None => Err(Error::InvalidTag(tag.type_())),
        },
        TagMode::Ordinal(_) => match wire_int_of(tag) {
            Some(x) => {
                if 0 <= x && x < es.variants.len() as i128 && x <= 0xffff_ffff {
                    Ok(x as u32)
                } else {
                    Err(Error::InvalidTag(tag.type_()))
                }
            },
            None => Err(Error::InvalidTag(tag.type_())),
        },
        TagMode::Repr(_) => match wire_int_of(tag) {
            Some(x) => match find_disc(&es.variants, x, 0) {
                Some(i) => {
                    if i <= 0xffff_ffff {
                        Ok(i as u32)
                    } else {
                        Err(Error::InvalidTag(tag.type_()))
                    }
                },
                None => Err(Error::InvalidTag(tag.type_())),
            },
            None => Err(Error::InvalidTag(tag.type_())),
        },
    }
}

/// The mathematical value of an executable enum shape.
pub open spec fn enum_shape_v(es: &EnumShape) -> EnumShapeV {
    EnumShapeV { tag: es.tag, variants: crate::shape::variant_shapes_view(es.variants@) }
}

/// A found name index is within the scanned range.
pub proof fn lemma_find_name_bound(vs: Seq<VariantShapeV>, name: Seq<char>, at: int)
    ensures
        spec_find_name(vs, name, at) is Some ==> at <= spec_find_name(vs, name, at)->Some_0
            < vs.len(),
    decreases vs.len() - at,
{
    if at >= 0 && at < vs.len() && !(vs[at].name == name) {
        lemma_find_name_bound(vs, name, at + 1);
    }
}

/// The enum read path: a bare scalar tag for unit variants, or the
/// `(tag, boxed payload)` pair.
pub fn decode_enum(w: &Variant, es: &EnumShape) -> (r: Result<Value, Error>)
    ensures
        dec_res_eq(r, spec_decode_enum(w@, enum_shape_v(es))),
    decreases w, ShapeV::Enum(enum_shape_v(es)), 1int,
{
    proof {
        lemma_var_ctor(*w);
        crate::shape::lemma_variant_shapes_view(es.variants@);
    }
    match w {
        Variant::Tuple(items) => {
            proof {
                crate::variant::lemma_vars_view(items@);
            }
            if items.len() != 2 {
                let r: Result<Value, Error> = Err(Error::UnsupportedType(w.type_()));
                proof {
                    assert(dec_res_eq(r, spec_decode_enum(w@, enum_shape_v(es))));
                }
                return r;
            }
            proof {
                lemma_var_ctor(items@[1]);
            }
            match &items[1] {
                Variant::Boxed(p) => {
                    match resolve_tag(&items[0], es) {
                        Ok(index) => {
                            let entry = &es.variants[index as usize];
                            proof {
                                assert(enum_shape_v(es).variants[index as int].payload
                                    == payload_shape_view(es.variants@[index as int].payload));
                            }
                            match decode_payload(p, &entry.payload) {
                                Ok(pv) => {
                                    let ghost pvv = pv@;
                                    let r: Result<Value, Error> = Ok(
                                        Value::EnumVal { index, payload: pv },
                                    );
                                    proof {
                                        assert(spec_decode_payload(
                                            var_view(*items@[1]->Boxed_0),
                                            enum_shape_v(es).variants[index as int].payload,
                                        ) == Ok::<PayloadValueV, ErrorV>(pvv));
                                        assert(dec_res_eq(
                                            r,
                                            spec_decode_enum(w@, enum_shape_v(es)),
                                        ));
                                    }
                                    r
                                },
                                Err(er) => Err(er),
                            }
                        },
                        Err(er) => Err(er),
                    }
                },
                _ => {
                    let r: Result<Value, Error> = Err(Error::UnsupportedType(w.type_()));
                    proof {
                        assert(dec_res_eq(r, spec_decode_enum(w@, enum_shape_v(es))));
                    }
                    r
                },
            }
        },
        _ => {
            let r: Result<Value, Error> = match resolve_tag(w, es) {
                Ok(index) => {
                    proof {
                        assert(spec_resolve_tag(w@, enum_shape_v(es)) == Ok::<u32, ErrorV>(
                            index,
                        ));
                        assert(!(index as int >= enum_shape_v(es).variants.len()));
                        assert(enum_shape_v(es).variants[index as int].payload
                            == payload_shape_view(es.variants@[index as int].payload));
                    }
                    match &es.variants[index as usize].payload {
                        PayloadShape::Unit => {
                            let r2: Result<Value, Error> = Ok(
                                Value::EnumVal { index, payload: PayloadValue::Unit },
                            );
                            proof {
                                assert(!(w@ is Tuple));
                                assert(payload_shape_view(es.variants@[index as int].payload)
                                    is Unit);
                                assert(enum_shape_v(es).variants[index as int].payload is Unit);
                                assert(spec_decode_enum(w@, enum_shape_v(es)) == Ok::<
                                    ValueV,
                                    ErrorV,
                                >(ValueV::EnumVal { index, payload: PayloadValueV::Unit }));
                                assert(payload_value_view(PayloadValue::Unit)
                                    == PayloadValueV::Unit);
                                assert(dec_res_eq(r2, spec_decode_enum(w@, enum_shape_v(es))));
                            }
                            r2
                        },
                        PayloadShape::Newtype(_) => {
                            let r2: Result<Value, Error> = Err(
                                Error::UnsupportedType(w.type_()),
                            );
                            proof {
                                assert(dec_res_eq(r2, spec_decode_enum(w@, enum_shape_v(es))));
                            }
                            r2
                        },
                        PayloadShape::Fields(_) => {
                            let r2: Result<Value, Error> = Err(
                                Error::UnsupportedType(w.type_()),
                            );
                            proof {
                                assert(dec_res_eq(r2, spec_decode_enum(w@, enum_shape_v(es))));
                            }
                            r2
                        },
                    }
                },
                Err(er) => {
                    let r2: Result<Value, Error> = Err(er);
                    proof {
                        assert(dec_res_eq(r2, spec_decode_enum(w@, enum_shape_v(es))));
                    }
                    r2
                },
            };
            r
        },
    }
}

/// Decodes one boxed enum payload against the variant's payload shape.
pub fn decode_payload(p: &Variant, ps: &PayloadShape) -> (r: Result<PayloadValue, Error>)
    ensures
        match r {
            Ok(pv) => spec_decode_payload(p@, ps@) == Ok::<PayloadValueV, ErrorV>(pv@),
            Err(er) => spec_decode_payload(p@, ps@) is Err && er@ == spec_decode_payload(
                p@,
                ps@,
            )->Err_0,
        },
    decreases p, payload_as_shape(ps@), 0int,
{
    proof {
        lemma_var_ctor(*p);
    }
    match ps {
        PayloadShape::Unit => match p {
            Variant::Tuple(items) => {
                proof {
                    crate::variant::lemma_vars_view(items@);
                }
                if items.len() == 0 {
                    Ok(PayloadValue::Unit)
                } else {
                    Err(Error::LengthMismatch { expected: 0, actual: items.len() })
                }
            },
            _ => Err(Error::TypeMismatch(p.type_())),
        },
        PayloadShape::Newtype(e) => {
            proof {
                assert(payload_as_shape(ps@) == ShapeV::Newtype(Box::new(shape_view(**e))));
                assert(decreases_to!(payload_as_shape(ps@) => shape_view(**e)));
            }
            match decode(p, e) {
                Ok(v) => Ok(PayloadValue::Newtype(Box::new(v))),
                Err(er) => Err(er),
            }
        },
        PayloadShape::Fields(ss) => match p {
            Variant::Tuple(items) => {
                proof {
                    crate::variant::lemma_vars_view(items@);
                    crate::shape::lemma_shapes_view(ss@);
                }
                if items.len() != ss.len() {
                    Err(Error::LengthMismatch { expected: ss.len(), actual: items.len() })
                } else {
                    match decode_fields(items, ss, 0) {
                        Ok(vs) => {
                            proof {
                                lemma_full_ranges(items@, ss@);
                            }
                            Ok(PayloadValue::Fields(vs))
                        },
                        Err(er) => {
                            proof {
                                lemma_full_ranges(items@, ss@);
                            }
                            Err(er)
                        },
                    }
                }
            },
            _ => Err(Error::TypeMismatch(p.type_())),
        },
    }
}

/// Deserializes a wire value at the shape the caller requests.  On a
/// wire value produced by the encoder from a fitting value, this returns
/// exactly that value.
pub fn from_variant(variant: &Variant, shape: &Shape) -> (r: Result<Value, Error>)
    ensures
        dec_res_eq(r, spec_decode(variant@, shape@)),
{
    decode(variant, shape)
}

} // verus!
