//! The logical data model's values.
//!
//! A [`Value`] is what application code hands to the encoder and receives
//! back from the decoder: scalars, strings, optionals, sequences, tuples
//! and structs, maps as ordered entry lists, transparent wrappers, enum
//! variants, and embedded wire values.  [`ValueV::matches`] is the typing
//! relation between a value and a [`ShapeV`].

use crate::object_path::is_valid_path;
use crate::shape::{EnumShapeV, PayloadShapeV, ShapeV};
use crate::signature::is_valid_signature;
use crate::variant::{var_view, Variant, VariantV};
use vstd::prelude::*;

verus! {

/// The mathematical model of a [`Value`].
#[verifier::ext_equal]
pub enum ValueV {
    Bool(bool),
    I8(i8),
    I16(i16),
    I32(i32),
    I64(i64),
    U8(u8),
    U16(u16),
    U32(u32),
    U64(u64),
    /// An IEEE 754 double, carried as its bit pattern.
    F64(u64),
    Char(char),
    Str(Seq<char>),
    Path(Seq<char>),
    Sig(Seq<char>),
    Bytes(Seq<u8>),
    Unit,
    OptNone,
    OptSome(Box<ValueV>),
    List(Seq<ValueV>),
    Tup(Seq<ValueV>),
    MapOf(Seq<(ValueV, ValueV)>),
    Newtype(Box<ValueV>),
    EnumVal { index: u32, payload: PayloadValueV },
    Wire(VariantV),
}

/// The mathematical model of a [`PayloadValue`].
#[verifier::ext_equal]
pub enum PayloadValueV {
    Unit,
    Newtype(Box<ValueV>),
    Fields(Seq<ValueV>),
}

impl ValueV {
    /// The typing relation: the value fits the shape, with validated
    /// strings holding their predicate and embedded wire values
    /// well-formed.
    pub open spec fn matches(self, s: ShapeV) -> bool
        decreases self,
    {
        match (self, s) {
            (ValueV::Bool(_), ShapeV::Bool) => true,
            (ValueV::I8(_), ShapeV::I8) => true,
            (ValueV::I16(_), ShapeV::I16) => true,
            (ValueV::I32(_), ShapeV::I32) => true,
            (ValueV::I64(_), ShapeV::I64) => true,
            (ValueV::U8(_), ShapeV::U8) => true,
            (ValueV::U16(_), ShapeV::U16) => true,
            (ValueV::U32(_), ShapeV::U32) => true,
            (ValueV::U64(_), ShapeV::U64) => true,
            (ValueV::F64(_), ShapeV::F64) => true,
            (ValueV::Char(_), ShapeV::Char) => true,
            (ValueV::Str(_), ShapeV::Str) => true,
            (ValueV::Path(p), ShapeV::Path) => is_valid_path(p),
            (ValueV::Sig(g), ShapeV::Sig) => is_valid_signature(g),
            (ValueV::Bytes(_), ShapeV::Bytes) => true,
            (ValueV::Unit, ShapeV::Unit) => true,
            (ValueV::OptNone, ShapeV::Opt(_)) => true,
            (ValueV::OptSome(x), ShapeV::Opt(e)) => x.matches(*e),
            (ValueV::List(items), ShapeV::List(e)) => Self::list_matches(items, *e),
            (ValueV::Tup(items), ShapeV::Tup(ss)) => Self::fields_match(items, ss),
            (ValueV::MapOf(pairs), ShapeV::MapOf(k, v)) => Self::pairs_match(pairs, *k, *v),
            (ValueV::Newtype(x), ShapeV::Newtype(e)) => x.matches(*e),
            (ValueV::EnumVal { index, payload }, ShapeV::Enum(es)) => {
                &&& (index as int) < es.variants.len()
                &&& payload.matches(es.variants[index as int].payload)
            },
            (ValueV::Wire(w), ShapeV::Wire) => w.wf(),
            _ => false,
        }
    }

    /// Every element matches the element shape.
    pub open spec fn list_matches(items: Seq<ValueV>, e: ShapeV) -> bool
        decreases items,
    {
        if items.len() == 0 {
            true
        } else {
            items[0].matches(e) && Self::list_matches(items.subrange(1, items.len() as int), e)
        }
    }

    /// The values match the field shapes positionally, with equal arity.
    pub open spec fn fields_match(items: Seq<ValueV>, ss: Seq<ShapeV>) -> bool
        decreases items,
    {
        if items.len() != ss.len() {
            false
        } else if items.len() == 0 {
            true
        } else {
            items[0].matches(ss[0]) && Self::fields_match(
                items.subrange(1, items.len() as int),
                ss.subrange(1, ss.len() as int),
            )
        }
    }

    /// Every entry's key and value match the key and value shapes.
    pub open spec fn pairs_match(pairs: Seq<(ValueV, ValueV)>, k: ShapeV, v: ShapeV) -> bool
        decreases pairs,
    {
        if pairs.len() == 0 {
            true
        } else {
            pairs[0].0.matches(k) && pairs[0].1.matches(v) && Self::pairs_match(
                pairs.subrange(1, pairs.len() as int),
                k,
                v,
            )
        }
    }

    /// `list_matches` holds exactly when each element matches.
    pub proof fn lemma_list_matches(items: Seq<ValueV>, e: ShapeV)
        ensures
            Self::list_matches(items, e) <==> (forall|i: int|
                0 <= i < items.len() ==> #[trigger] items[i].matches(e)),
        decreases items,
    {
        if items.len() > 0 {
            let tail = items.subrange(1, items.len() as int);
            Self::lemma_list_matches(tail, e);
            if Self::list_matches(items, e) {
                assert forall|i: int| 0 <= i < items.len() implies #[trigger] items[i].matches(
                    e,
                ) by {
                    if i >= 1 {
                        assert(items[i] == tail[i - 1]);
                    }
                }
            }
            if forall|i: int| 0 <= i < items.len() ==> #[trigger] items[i].matches(e) {
                assert forall|i: int| 0 <= i < tail.len() implies #[trigger] tail[i].matches(
                    e,
                ) by {
                    assert(tail[i] == items[i + 1]);
                }
                assert(items[0].matches(e));
                assert(Self::list_matches(items, e));
            }
        }
    }

    /// `fields_match` holds exactly when the arity agrees and each value
    /// matches its field shape.
    pub proof fn lemma_fields_match(items: Seq<ValueV>, ss: Seq<ShapeV>)
        ensures
            Self::fields_match(items, ss) <==> (items.len() == ss.len() && (forall|i: int|
                0 <= i < items.len() ==> #[trigger] items[i].matches(ss[i]))),
        decreases items,
    {
        if items.len() == ss.len() && items.len() > 0 {
            let ti = items.subrange(1, items.len() as int);
            let ts = ss.subrange(1, ss.len() as int);
            Self::lemma_fields_match(ti, ts);
            if Self::fields_match(items, ss) {
                assert forall|i: int| 0 <= i < items.len() implies #[trigger] items[i].matches(
                    ss[i],
                ) by {
                    if i >= 1 {
                        assert(items[i] == ti[i - 1]);
                        assert(ss[i] == ts[i - 1]);
                    }
                }
            }
            if forall|i: int| 0 <= i < items.len() ==> #[trigger] items[i].matches(ss[i]) {
                assert forall|i: int| 0 <= i < ti.len() implies #[trigger] ti[i].matches(
                    ts[i],
                ) by {
                    assert(ti[i] == items[i + 1]);
                    assert(ts[i] == ss[i + 1]);
                }
                assert(items[0].matches(ss[0]));
                assert(Self::fields_match(items, ss));
            }
        }
    }

    /// `pairs_match` holds exactly when each entry matches.
    pub proof fn lemma_pairs_match(pairs: Seq<(ValueV, ValueV)>, k: ShapeV, v: ShapeV)
        ensures
            Self::pairs_match(pairs, k, v) <==> (forall|i: int|
                0 <= i < pairs.len() ==> (#[trigger] pairs[i]).0.matches(k) && pairs[i].1.matches(
                    v,
                )),
        decreases pairs,
    {
        if pairs.len() > 0 {
            let tail = pairs.subrange(1, pairs.len() as int);
            Self::lemma_pairs_match(tail, k, v);
            if Self::pairs_match(pairs, k, v) {
                assert forall|i: int| 0 <= i < pairs.len() implies (#[trigger] pairs[
                    i
                ]).0.matches(k) && pairs[i].1.matches(v) by {
                    if i >= 1 {
                        assert(pairs[i] == tail[i - 1]);
                    }
                }
            }
            if forall|i: int|
                0 <= i < pairs.len() ==> (#[trigger] pairs[i]).0.matches(k) && pairs[i].1.matches(
                    v,
                ) {
                assert forall|i: int| 0 <= i < tail.len() implies (#[trigger] tail[i]).0.matches(
                    k,
                ) && tail[i].1.matches(v) by {
                    assert(tail[i] == pairs[i + 1]);
                }
                assert(pairs[0].0.matches(k) && pairs[0].1.matches(v));
                assert(Self::pairs_match(pairs, k, v));
            }
        }
    }
}

impl PayloadValueV {
    /// The typing relation for a variant payload.
    pub open spec fn matches(self, ps: PayloadShapeV) -> bool
        decreases self,
    {
        match (self, ps) {
            (PayloadValueV::Unit, PayloadShapeV::Unit) => true,
            (PayloadValueV::Newtype(x), PayloadShapeV::Newtype(e)) => x.matches(*e),
            (PayloadValueV::Fields(xs), PayloadShapeV::Fields(ss)) => ValueV::fields_match(xs, ss),
            _ => false,
        }
    }
}

/// A logical value.
#[derive(Debug, PartialEq)]
pub enum Value {
    Bool(bool),
    I8(i8),
    I16(i16),
    I32(i32),
    I64(i64),
    U8(u8),
    U16(u16),
    U32(u32),
    U64(u64),
    /// An IEEE 754 double, carried as its bit pattern.
    F64(u64),
    Char(char),
    Str(String),
    Path(String),
    Sig(String),
    Bytes(Vec<u8>),
    Unit,
    OptNone,
    OptSome(Box<Value>),
    List(Vec<Value>),
    Tup(Vec<Value>),
    MapOf(Vec<(Value, Value)>),
    Newtype(Box<Value>),
    EnumVal { index: u32, payload: PayloadValue },
    Wire(Variant),
}

/// One enum variant's payload.
#[derive(Debug, PartialEq)]
pub enum PayloadValue {
    Unit,
    Newtype(Box<Value>),
    Fields(Vec<Value>),
}

/// The mathematical value of an executable logical value.
pub open spec fn value_view(v: Value) -> ValueV
    decreases v,
{
    match v {
        Value::Bool(b) => ValueV::Bool(b),
        Value::I8(x) => ValueV::I8(x),
        Value::I16(x) => ValueV::I16(x),
        Value::I32(x) => ValueV::I32(x),
        Value::I64(x) => ValueV::I64(x),
        Value::U8(x) => ValueV::U8(x),
        Value::U16(x) => ValueV::U16(x),
        Value::U32(x) => ValueV::U32(x),
        Value::U64(x) => ValueV::U64(x),
        Value::F64(x) => ValueV::F64(x),
        Value::Char(c) => ValueV::Char(c),
        Value::Str(s) => ValueV::Str(s@),
        Value::Path(s) => ValueV::Path(s@),
        Value::Sig(s) => ValueV::Sig(s@),
        Value::Bytes(bs) => ValueV::Bytes(bs@),
        Value::Unit => ValueV::Unit,
        Value::OptNone => ValueV::OptNone,
        Value::OptSome(x) => ValueV::OptSome(Box::new(value_view(*x))),
        Value::List(items) => ValueV::List(values_view(items@)),
        Value::Tup(items) => ValueV::Tup(values_view(items@)),
        Value::MapOf(pairs) => ValueV::MapOf(pairs_view(pairs@)),
        Value::Newtype(x) => ValueV::Newtype(Box::new(value_view(*x))),
        Value::EnumVal { index, payload } => ValueV::EnumVal {
            index,
            payload: payload_value_view(payload),
        },
        Value::Wire(w) => ValueV::Wire(var_view(w)),
    }
}

/// The mathematical values of a sequence of logical values.
pub open spec fn values_view(items: Seq<Value>) -> Seq<ValueV>
    decreases items,
{
    if items.len() == 0 {
        Seq::empty()
    } else {
        values_view(items.drop_last()).push(value_view(items.last()))
    }
}

/// The mathematical values of a sequence of entries.
pub open spec fn pairs_view(pairs: Seq<(Value, Value)>) -> Seq<(ValueV, ValueV)>
    decreases pairs,
{
    if pairs.len() == 0 {
        Seq::empty()
    } else {
        pairs_view(pairs.drop_last()).push(
            (value_view(pairs.last().0), value_view(pairs.last().1)),
        )
    }
}

/// The mathematical value of an executable payload.
pub open spec fn payload_value_view(p: PayloadValue) -> PayloadValueV
    decreases p,
{
    match p {
        PayloadValue::Unit => PayloadValueV::Unit,
        PayloadValue::Newtype(x) => PayloadValueV::Newtype(Box::new(value_view(*x))),
        PayloadValue::Fields(xs) => PayloadValueV::Fields(values_view(xs@)),
    }
}

/// `values_view` maps `value_view` over the sequence.
pub proof fn lemma_values_view(items: Seq<Value>)
    ensures
        values_view(items).len() == items.len(),
        forall|i: int| 0 <= i < items.len() ==> values_view(items)[i] == value_view(items[i]),
    decreases items,
{
    if items.len() > 0 {
        lemma_values_view(items.drop_last());
    }
}

/// `pairs_view` maps the entry view over the sequence.
pub proof fn lemma_pairs_view(pairs: Seq<(Value, Value)>)
    ensures
        pairs_view(pairs).len() == pairs.len(),
        forall|i: int|
            0 <= i < pairs.len() ==> pairs_view(pairs)[i] == (
                value_view(pairs[i].0),
                value_view(pairs[i].1),
            ),
    decreases pairs,
{
    if pairs.len() > 0 {
        lemma_pairs_view(pairs.drop_last());
    }
}

impl View for Value {
    type V = ValueV;

    open spec fn view(&self) -> ValueV {
        value_view(*self)
    }
}

impl View for PayloadValue {
    type V = PayloadValueV;

    open spec fn view(&self) -> PayloadValueV {
        payload_value_view(*self)
    }
}

} // verus!
