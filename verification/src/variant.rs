//! The wire value: an immutable, self-describing tree in the GVariant data
//! model.
//!
//! A wire value always knows its own type ([`Variant::type_`]).  Container
//! values are built bottom-up from fully-constructed children; an array or
//! an absent optional carries its element type explicitly, so the type can
//! be recovered without inspecting a present child.

use crate::object_path::is_valid_path;
use crate::signature::is_valid_signature;
use crate::ty::{ty_view, TyV, VariantTy};
use vstd::prelude::*;

verus! {

/// The mathematical model of a wire value.
#[verifier::ext_equal]
pub enum VariantV {
    Bool(bool),
    Byte(u8),
    Int16(i16),
    Uint16(u16),
    Int32(i32),
    Uint32(u32),
    Int64(i64),
    Uint64(u64),
    /// An IEEE 754 double, carried as its bit pattern.
    Double(u64),
    Str(Seq<char>),
    ObjPath(Seq<char>),
    Sig(Seq<char>),
    Maybe { elem: TyV, inner: Option<Box<VariantV>> },
    Array { elem: TyV, items: Seq<VariantV> },
    Tuple(Seq<VariantV>),
    Entry(Box<VariantV>, Box<VariantV>),
    Boxed(Box<VariantV>),
}

impl VariantV {
    /// The type that this wire value advertises.
    pub open spec fn ty(self) -> TyV
        decreases self,
    {
        match self {
            VariantV::Bool(_) => TyV::Bool,
            VariantV::Byte(_) => TyV::Byte,
            VariantV::Int16(_) => TyV::Int16,
            VariantV::Uint16(_) => TyV::Uint16,
            VariantV::Int32(_) => TyV::Int32,
            VariantV::Uint32(_) => TyV::Uint32,
            VariantV::Int64(_) => TyV::Int64,
            VariantV::Uint64(_) => TyV::Uint64,
            VariantV::Double(_) => TyV::Double,
            VariantV::Str(_) => TyV::Str,
            VariantV::ObjPath(_) => TyV::ObjPath,
            VariantV::Sig(_) => TyV::Sig,
            VariantV::Maybe { elem, inner } => TyV::Maybe(Box::new(elem)),
            VariantV::Array { elem, items } => TyV::Array(Box::new(elem)),
            VariantV::Tuple(items) => TyV::Tuple(Self::tys(items)),
            VariantV::Entry(k, v) => TyV::Entry(Box::new(k.ty()), Box::new(v.ty())),
            VariantV::Boxed(_) => TyV::Var,
        }
    }

    /// The advertised types of a sequence of wire values.
    pub open spec fn tys(items: Seq<VariantV>) -> Seq<TyV>
        decreases items,
    {
        if items.len() == 0 {
            Seq::empty()
        } else {
            Self::tys(items.drop_last()).push(items.last().ty())
        }
    }

    /// `tys` maps `ty` over the sequence, position by position.
    pub proof fn lemma_tys(items: Seq<VariantV>)
        ensures
            Self::tys(items).len() == items.len(),
            forall|i: int| 0 <= i < items.len() ==> Self::tys(items)[i] == items[i].ty(),
        decreases items,
    {
        if items.len() > 0 {
            Self::lemma_tys(items.drop_last());
        }
    }

    /// Well-formedness: validated strings hold their predicate, an array's
    /// children all have the declared element type, dictionary keys are
    /// basic, and declared element types are definite and well-formed.
    pub open spec fn wf(self) -> bool
        decreases self,
    {
        match self {
            VariantV::ObjPath(s) => is_valid_path(s),
            VariantV::Sig(s) => is_valid_signature(s),
            VariantV::Maybe { elem, inner } => {
                &&& elem.wf()
                &&& elem.is_definite()
                &&& match inner {
                    Some(v) => v.wf() && v.ty() == elem,
                    None => true,
                }
            },
            VariantV::Array { elem, items } => {
                &&& elem.wf()
                &&& elem.is_definite()
                &&& Self::all_wf(items)
                &&& Self::all_of_ty(items, elem)
            },
            VariantV::Tuple(items) => Self::all_wf(items),
            VariantV::Entry(k, v) => k.ty().is_basic() && k.wf() && v.wf(),
            VariantV::Boxed(v) => v.wf(),
            _ => true,
        }
    }

    /// Every wire value in the sequence is well-formed.
    pub open spec fn all_wf(items: Seq<VariantV>) -> bool
        decreases items,
    {
        if items.len() == 0 {
            true
        } else {
            items[0].wf() && Self::all_wf(items.subrange(1, items.len() as int))
        }
    }

    /// Every wire value in the sequence has the given type.
    pub open spec fn all_of_ty(items: Seq<VariantV>, elem: TyV) -> bool
        decreases items,
    {
        if items.len() == 0 {
            true
        } else {
            items[0].ty() == elem && Self::all_of_ty(items.subrange(1, items.len() as int), elem)
        }
    }

    /// `all_wf` holds exactly when each element is well-formed.
    pub proof fn lemma_all_wf(items: Seq<VariantV>)
        ensures
            Self::all_wf(items) <==> (forall|i: int|
                0 <= i < items.len() ==> #[trigger] items[i].wf()),
        decreases items,
    {
        if items.len() > 0 {
            let tail = items.subrange(1, items.len() as int);
            Self::lemma_all_wf(tail);
            if Self::all_wf(items) {
                assert forall|i: int| 0 <= i < items.len() implies #[trigger] items[i].wf() by {
                    if i >= 1 {
                        assert(items[i] == tail[i - 1]);
                    }
                }
            }
            if forall|i: int| 0 <= i < items.len() ==> #[trigger] items[i].wf() {
                assert forall|i: int| 0 <= i < tail.len() implies #[trigger] tail[i].wf() by {
                    assert(tail[i] == items[i + 1]);
                }
                assert(items[0].wf());
                assert(Self::all_wf(items));
            }
        }
    }

    /// `all_of_ty` holds exactly when each element has the given type.
    pub proof fn lemma_all_of_ty(items: Seq<VariantV>, elem: TyV)
        ensures
            Self::all_of_ty(items, elem) <==> (forall|i: int|
                0 <= i < items.len() ==> #[trigger] items[i].ty() == elem),
        decreases items,
    {
        if items.len() > 0 {
            let tail = items.subrange(1, items.len() as int);
            Self::lemma_all_of_ty(tail, elem);
            if Self::all_of_ty(items, elem) {
                assert forall|i: int| 0 <= i < items.len() implies #[trigger] items[i].ty()
                    == elem by {
                    if i >= 1 {
                        assert(items[i] == tail[i - 1]);
                    }
                }
            }
            if forall|i: int| 0 <= i < items.len() ==> #[trigger] items[i].ty() == elem {
                assert forall|i: int| 0 <= i < tail.len() implies #[trigger] tail[i].ty()
                    == elem by {
                    assert(tail[i] == items[i + 1]);
                }
                assert(items[0].ty() == elem);
                assert(Self::all_of_ty(items, elem));
            }
        }
    }
}

/// A wire value.
#[derive(Debug, PartialEq)]
pub enum Variant {
    Bool(bool),
    Byte(u8),
    Int16(i16),
    Uint16(u16),
    Int32(i32),
    Uint32(u32),
    Int64(i64),
    Uint64(u64),
    /// An IEEE 754 double, carried as its bit pattern.
    Double(u64),
    Str(String),
    ObjPath(String),
    Sig(String),
    /// An optional value; the element type is declared even when absent.
    Maybe { elem: VariantTy, inner: Option<Box<Variant>> },
    /// A homogeneous array with its declared element type.
    Array { elem: VariantTy, items: Vec<Variant> },
    Tuple(Vec<Variant>),
    /// A dictionary entry; dictionaries are arrays of entries.
    Entry(Box<Variant>, Box<Variant>),
    /// The dynamic box, wire type `v`: a value carried with its own type.
    Boxed(Box<Variant>),
}

/// The mathematical value of an executable wire value.
pub open spec fn var_view(v: Variant) -> VariantV
    decreases v,
{
    match v {
        Variant::Bool(b) => VariantV::Bool(b),
        Variant::Byte(x) => VariantV::Byte(x),
        Variant::Int16(x) => VariantV::Int16(x),
        Variant::Uint16(x) => VariantV::Uint16(x),
        Variant::Int32(x) => VariantV::Int32(x),
        Variant::Uint32(x) => VariantV::Uint32(x),
        Variant::Int64(x) => VariantV::Int64(x),
        Variant::Uint64(x) => VariantV::Uint64(x),
        Variant::Double(x) => VariantV::Double(x),
        Variant::Str(s) => VariantV::Str(s@),
        Variant::ObjPath(s) => VariantV::ObjPath(s@),
        Variant::Sig(s) => VariantV::Sig(s@),
        Variant::Maybe { elem, inner } => VariantV::Maybe {
            elem: ty_view(elem),
            inner: match inner {
                Some(b) => Some(Box::new(var_view(*b))),
                None => None,
            },
        },
        Variant::Array { elem, items } => VariantV::Array {
            elem: ty_view(elem),
            items: vars_view(items@),
        },
        Variant::Tuple(items) => VariantV::Tuple(vars_view(items@)),
        Variant::Entry(k, v2) => VariantV::Entry(Box::new(var_view(*k)), Box::new(var_view(*v2))),
        Variant::Boxed(b) => VariantV::Boxed(Box::new(var_view(*b))),
    }
}

/// The mathematical values of a sequence of executable wire values.
pub open spec fn vars_view(items: Seq<Variant>) -> Seq<VariantV>
    decreases items,
{
    if items.len() == 0 {
        Seq::empty()
    } else {
        vars_view(items.drop_last()).push(var_view(items.last()))
    }
}

/// `vars_view` maps `var_view` over the sequence, position by position.
pub proof fn lemma_vars_view(items: Seq<Variant>)
    ensures
        vars_view(items).len() == items.len(),
        forall|i: int| 0 <= i < items.len() ==> vars_view(items)[i] == var_view(items[i]),
    decreases items,
{
    if items.len() > 0 {
        lemma_vars_view(items.drop_last());
    }
}

impl View for Variant {
    type V = VariantV;

    open spec fn view(&self) -> VariantV {
        var_view(*self)
    }
}

impl Variant {
    /// The type that this wire value advertises.
    #[verifier::loop_isolation(false)]
    pub fn type_(&self) -> (t: VariantTy)
        ensures
            t@ == self@.ty(),
        decreases self,
    {
        match self {
            Variant::Bool(_) => VariantTy::Bool,
            Variant::Byte(_) => VariantTy::Byte,
            Variant::Int16(_) => VariantTy::Int16,
            Variant::Uint16(_) => VariantTy::Uint16,
            Variant::Int32(_) => VariantTy::Int32,
            Variant::Uint32(_) => VariantTy::Uint32,
            Variant::Int64(_) => VariantTy::Int64,
            Variant::Uint64(_) => VariantTy::Uint64,
            Variant::Double(_) => VariantTy::Double,
            Variant::Str(_) => VariantTy::Str,
            Variant::ObjPath(_) => VariantTy::ObjPath,
            Variant::Sig(_) => VariantTy::Sig,
            Variant::Maybe { elem, inner: _ } => VariantTy::Maybe(Box::new(elem.duplicate())),
            Variant::Array { elem, items: _ } => VariantTy::Array(Box::new(elem.duplicate())),
            Variant::Tuple(items) => {
                let mut out: Vec<VariantTy> = Vec::new();
                let mut j: usize = 0;
                while j < items.len()
                    invariant
                        0 <= j <= items.len(),
                        out@.len() == j,
                        forall|i: int|
                            0 <= i < j ==> crate::ty::ty_view(out@[i]) == var_view(
                                items@[i],
                            ).ty(),
                    decreases items.len() - j,
                {
                    let t = items[j].type_();
                    out.push(t);
                    j += 1;
                }
                proof {
                    crate::ty::lemma_tys_view(out@);
                    lemma_vars_view(items@);
                    VariantV::lemma_tys(vars_view(items@));
                    assert(crate::ty::tys_view(out@) =~= VariantV::tys(vars_view(items@)));
                }
                VariantTy::Tuple(out)
            },
            Variant::Entry(k, v) => VariantTy::Entry(
                Box::new(k.type_()),
                Box::new(v.type_()),
            ),
            Variant::Boxed(_) => VariantTy::Var,
        }
    }

    /// An identical copy of this wire value.
    #[verifier::loop_isolation(false)]
    pub fn duplicate(&self) -> (r: Variant)
        ensures
            r@ == self@,
        decreases self,
    {
        match self {
            Variant::Bool(b) => Variant::Bool(*b),
            Variant::Byte(x) => Variant::Byte(*x),
            Variant::Int16(x) => Variant::Int16(*x),
            Variant::Uint16(x) => Variant::Uint16(*x),
            Variant::Int32(x) => Variant::Int32(*x),
            Variant::Uint32(x) => Variant::Uint32(*x),
            Variant::Int64(x) => Variant::Int64(*x),
            Variant::Uint64(x) => Variant::Uint64(*x),
            Variant::Double(x) => Variant::Double(*x),
            Variant::Str(s) => Variant::Str(s.clone()),
            Variant::ObjPath(s) => Variant::ObjPath(s.clone()),
            Variant::Sig(s) => Variant::Sig(s.clone()),
            Variant::Maybe { elem, inner } => Variant::Maybe {
                elem: elem.duplicate(),
                inner: match inner {
                    Some(b) => Some(Box::new(b.duplicate())),
                    None => None,
                },
            },
            Variant::Array { elem, items } => {
                let mut out: Vec<Variant> = Vec::new();
                let mut j: usize = 0;
                while j < items.len()
                    invariant
                        0 <= j <= items.len(),
                        out@.len() == j,
                        forall|i: int| 0 <= i < j ==> var_view(out@[i]) == var_view(items@[i]),
                    decreases items.len() - j,
                {
                    let c = items[j].duplicate();
                    out.push(c);
                    j += 1;
                }
                proof {
                    lemma_vars_view(out@);
                    lemma_vars_view(items@);
                    assert(vars_view(out@) =~= vars_view(items@));
                }
                Variant::Array { elem: elem.duplicate(), items: out }
            },
            Variant::Tuple(items) => {
                let mut out: Vec<Variant> = Vec::new();
                let mut j: usize = 0;
                while j < items.len()
                    invariant
                        0 <= j <= items.len(),
                        out@.len() == j,
                        forall|i: int| 0 <= i < j ==> var_view(out@[i]) == var_view(items@[i]),
                    decreases items.len() - j,
                {
                    let c = items[j].duplicate();
                    out.push(c);
                    j += 1;
                }
                proof {
                    lemma_vars_view(out@);
                    lemma_vars_view(items@);
                    assert(vars_view(out@) =~= vars_view(items@));
                }
                Variant::Tuple(out)
            },
            Variant::Entry(k, v) => Variant::Entry(
                Box::new(k.duplicate()),
                Box::new(v.duplicate()),
            ),
            Variant::Boxed(b) => Variant::Boxed(Box::new(b.duplicate())),
        }
    }

    /// The canonical signature string of this wire value's type.
    pub fn type_string(&self) -> (s: String)
        ensures
            s@ == self@.ty().sig(),
    {
        let t = self.type_();
        t.type_string()
    }
}

} // verus!
