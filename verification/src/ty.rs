//! The wire-format type tree.
//!
//! A GVariant type signature such as `"a{sv}"` is the canonical string
//! rendering of a structured type.  This module represents the type as a
//! tree, which makes the signature algebra (element of an array, key and
//! value of a dictionary entry, field of a tuple) structural instead of
//! string surgery; [`VariantTy::type_string`] renders the canonical
//! signature.
//!
//! Every executable tree has a mathematical mirror ([`TyV`]) reached through
//! `@`; contracts throughout the crate speak about the mirrors.

use crate::util::{char_string, push_char};
use vstd::prelude::*;
use vstd::string::*;

verus! {

/// The mathematical model of a wire-format type.
#[verifier::ext_equal]
pub enum TyV {
    Bool,
    Byte,
    Int16,
    Uint16,
    Int32,
    Uint32,
    Int64,
    Uint64,
    Double,
    Str,
    ObjPath,
    Sig,
    Var,
    Any,
    Maybe(Box<TyV>),
    Array(Box<TyV>),
    Tuple(Seq<TyV>),
    Entry(Box<TyV>, Box<TyV>),
}

impl TyV {
    /// The canonical signature string of this type, as a character sequence.
    pub open spec fn sig(self) -> Seq<char>
        decreases self,
    {
        match self {
            TyV::Bool => seq!['b'],
            TyV::Byte => seq!['y'],
            TyV::Int16 => seq!['n'],
            TyV::Uint16 => seq!['q'],
            TyV::Int32 => seq!['i'],
            TyV::Uint32 => seq!['u'],
            TyV::Int64 => seq!['x'],
            TyV::Uint64 => seq!['t'],
            TyV::Double => seq!['d'],
            TyV::Str => seq!['s'],
            TyV::ObjPath => seq!['o'],
            TyV::Sig => seq!['g'],
            TyV::Var => seq!['v'],
            TyV::Any => seq!['*'],
            TyV::Maybe(e) => seq!['m'] + e.sig(),
            TyV::Array(e) => seq!['a'] + e.sig(),
            TyV::Tuple(ts) => seq!['('] + Self::sigs(ts) + seq![')'],
            TyV::Entry(k, v) => seq!['{'] + k.sig() + v.sig() + seq!['}'],
        }
    }

    /// The concatenated signatures of a sequence of types.
    pub open spec fn sigs(ts: Seq<TyV>) -> Seq<char>
        decreases ts,
    {
        if ts.len() == 0 {
            Seq::empty()
        } else {
            Self::sigs(ts.drop_last()) + ts.last().sig()
        }
    }

    /// A basic type: one of the scalar or string-like leaves that may key a
    /// dictionary entry.
    pub open spec fn is_basic(self) -> bool {
        match self {
            TyV::Bool
            | TyV::Byte
            | TyV::Int16
            | TyV::Uint16
            | TyV::Int32
            | TyV::Uint32
            | TyV::Int64
            | TyV::Uint64
            | TyV::Double
            | TyV::Str
            | TyV::ObjPath
            | TyV::Sig => true,
            _ => false,
        }
    }

    /// A definite type contains no wildcard, so every value of it has
    /// exactly this type.
    pub open spec fn is_definite(self) -> bool
        decreases self,
    {
        match self {
            TyV::Any => false,
            TyV::Maybe(e) => e.is_definite(),
            TyV::Array(e) => e.is_definite(),
            TyV::Tuple(ts) => Self::all_definite(ts),
            TyV::Entry(k, v) => k.is_definite() && v.is_definite(),
            _ => true,
        }
    }

    /// Every type in the sequence is definite.
    pub open spec fn all_definite(ts: Seq<TyV>) -> bool
        decreases ts,
    {
        if ts.len() == 0 {
            true
        } else {
            ts[0].is_definite() && Self::all_definite(ts.subrange(1, ts.len() as int))
        }
    }

    /// `all_definite` holds exactly when each type in the sequence is
    /// definite.
    pub proof fn lemma_all_definite(ts: Seq<TyV>)
        ensures
            Self::all_definite(ts) <==> (forall|i: int|
                0 <= i < ts.len() ==> #[trigger] ts[i].is_definite()),
        decreases ts,
    {
        if ts.len() > 0 {
            let tail = ts.subrange(1, ts.len() as int);
            Self::lemma_all_definite(tail);
            if Self::all_definite(ts) {
                assert forall|i: int| 0 <= i < ts.len() implies #[trigger] ts[
                    i
                ].is_definite() by {
                    if i >= 1 {
                        assert(ts[i] == tail[i - 1]);
                    }
                }
            }
            if forall|i: int| 0 <= i < ts.len() ==> #[trigger] ts[i].is_definite() {
                assert forall|i: int| 0 <= i < tail.len() implies #[trigger] tail[
                    i
                ].is_definite() by {
                    assert(tail[i] == ts[i + 1]);
                }
                assert(ts[0].is_definite());
                assert(Self::all_definite(ts));
            }
        }
    }

    /// Well-formed types key dictionary entries with basic types only.
    pub open spec fn wf(self) -> bool
        decreases self,
    {
        match self {
            TyV::Maybe(e) => e.wf(),
            TyV::Array(e) => e.wf(),
            TyV::Tuple(ts) => Self::all_wf(ts),
            TyV::Entry(k, v) => k.is_basic() && k.wf() && v.wf(),
            _ => true,
        }
    }

    /// Every type in the sequence is well-formed.
    pub open spec fn all_wf(ts: Seq<TyV>) -> bool
        decreases ts,
    {
        if ts.len() == 0 {
            true
        } else {
            ts[0].wf() && Self::all_wf(ts.subrange(1, ts.len() as int))
        }
    }

    /// `all_wf` holds exactly when each type in the sequence is well-formed.
    pub proof fn lemma_all_wf(ts: Seq<TyV>)
        ensures
            Self::all_wf(ts) <==> (forall|i: int| 0 <= i < ts.len() ==> #[trigger] ts[i].wf()),
        decreases ts,
    {
        if ts.len() > 0 {
            let tail = ts.subrange(1, ts.len() as int);
            Self::lemma_all_wf(tail);
            if Self::all_wf(ts) {
                assert forall|i: int| 0 <= i < ts.len() implies #[trigger] ts[i].wf() by {
                    if i >= 1 {
                        assert(ts[i] == tail[i - 1]);
                    }
                }
            }
            if forall|i: int| 0 <= i < ts.len() ==> #[trigger] ts[i].wf() {
                assert forall|i: int| 0 <= i < tail.len() implies #[trigger] tail[i].wf() by {
                    assert(tail[i] == ts[i + 1]);
                }
                assert(ts[0].wf());
                assert(Self::all_wf(ts));
            }
        }
    }

    /// One of the nine fixed-width primitive codes that have a packed
    /// array encoding.
    pub open spec fn is_fixed_width(self) -> bool {
        match self {
            TyV::Bool
            | TyV::Byte
            | TyV::Int16
            | TyV::Uint16
            | TyV::Int32
            | TyV::Uint32
            | TyV::Int64
            | TyV::Uint64
            | TyV::Double => true,
            _ => false,
        }
    }
}

/// A wire-format type: the structured form of a type signature.
#[derive(Debug, PartialEq, Eq)]
pub enum VariantTy {
    /// `b`
    Bool,
    /// `y`, an 8-bit unsigned byte
    Byte,
    /// `n`
    Int16,
    /// `q`
    Uint16,
    /// `i`
    Int32,
    /// `u`
    Uint32,
    /// `x`
    Int64,
    /// `t`
    Uint64,
    /// `d`, an IEEE 754 double (carried as its bit pattern in this crate)
    Double,
    /// `s`
    Str,
    /// `o`, a hierarchical object path string
    ObjPath,
    /// `g`, a type-signature string
    Sig,
    /// `v`, the dynamic box: a value paired with its own signature
    Var,
    /// `*`, the wildcard used when no type information is available
    Any,
    /// `m<elem>`, an optional value with a declared element type
    Maybe(Box<VariantTy>),
    /// `a<elem>`
    Array(Box<VariantTy>),
    /// `(t0 t1 ...)`
    Tuple(Vec<VariantTy>),
    /// `{key value}`, a dictionary entry
    Entry(Box<VariantTy>, Box<VariantTy>),
}

/// The mathematical value of an executable type tree.
pub open spec fn ty_view(t: VariantTy) -> TyV
    decreases t,
{
    match t {
        VariantTy::Bool => TyV::Bool,
        VariantTy::Byte => TyV::Byte,
        VariantTy::Int16 => TyV::Int16,
        VariantTy::Uint16 => TyV::Uint16,
        VariantTy::Int32 => TyV::Int32,
        VariantTy::Uint32 => TyV::Uint32,
        VariantTy::Int64 => TyV::Int64,
        VariantTy::Uint64 => TyV::Uint64,
        VariantTy::Double => TyV::Double,
        VariantTy::Str => TyV::Str,
        VariantTy::ObjPath => TyV::ObjPath,
        VariantTy::Sig => TyV::Sig,
        VariantTy::Var => TyV::Var,
        VariantTy::Any => TyV::Any,
        VariantTy::Maybe(e) => TyV::Maybe(Box::new(ty_view(*e))),
        VariantTy::Array(e) => TyV::Array(Box::new(ty_view(*e))),
        VariantTy::Tuple(ts) => TyV::Tuple(tys_view(ts@)),
        VariantTy::Entry(k, v) => TyV::Entry(Box::new(ty_view(*k)), Box::new(ty_view(*v))),
    }
}

/// The mathematical values of a sequence of executable type trees.
pub open spec fn tys_view(ts: Seq<VariantTy>) -> Seq<TyV>
    decreases ts,
{
    if ts.len() == 0 {
        Seq::empty()
    } else {
        tys_view(ts.drop_last()).push(ty_view(ts.last()))
    }
}

/// `tys_view` maps `ty_view` over the sequence, position by position.
pub broadcast proof fn lemma_tys_view(ts: Seq<VariantTy>)
    ensures
        #[trigger] tys_view(ts).len() == ts.len(),
        forall|i: int| 0 <= i < ts.len() ==> tys_view(ts)[i] == ty_view(ts[i]),
    decreases ts,
{
    if ts.len() > 0 {
        lemma_tys_view(ts.drop_last());
    }
}

impl View for VariantTy {
    type V = TyV;

    open spec fn view(&self) -> TyV {
        ty_view(*self)
    }
}

impl VariantTy {
    /// Structural equality of two type trees.
    #[verifier::loop_isolation(false)]
    pub fn ty_eq(&self, other: &VariantTy) -> (r: bool)
        ensures
            r <==> self@ == other@,
        decreases self,
    {
        broadcast use lemma_tys_view;

        match (self, other) {
            (VariantTy::Bool, VariantTy::Bool) => true,
            (VariantTy::Byte, VariantTy::Byte) => true,
            (VariantTy::Int16, VariantTy::Int16) => true,
            (VariantTy::Uint16, VariantTy::Uint16) => true,
            (VariantTy::Int32, VariantTy::Int32) => true,
            (VariantTy::Uint32, VariantTy::Uint32) => true,
            (VariantTy::Int64, VariantTy::Int64) => true,
            (VariantTy::Uint64, VariantTy::Uint64) => true,
            (VariantTy::Double, VariantTy::Double) => true,
            (VariantTy::Str, VariantTy::Str) => true,
            (VariantTy::ObjPath, VariantTy::ObjPath) => true,
            (VariantTy::Sig, VariantTy::Sig) => true,
            (VariantTy::Var, VariantTy::Var) => true,
            (VariantTy::Any, VariantTy::Any) => true,
            (VariantTy::Maybe(a), VariantTy::Maybe(b)) => a.ty_eq(b),
            (VariantTy::Array(a), VariantTy::Array(b)) => a.ty_eq(b),
            (VariantTy::Tuple(a), VariantTy::Tuple(b)) => {
                if a.len() != b.len() {
                    proof {
                        lemma_tys_view(a@);
                        lemma_tys_view(b@);
                    }
                    return false;
                }
                let mut j: usize = 0;
                while j < a.len()
                    invariant
                        0 <= j <= a.len(),
                        a.len() == b.len(),
                        forall|i: int| 0 <= i < j ==> ty_view(a@[i]) == ty_view(b@[i]),
                    decreases a.len() - j,
                {
                    if !a[j].ty_eq(&b[j]) {
                        proof {
                            lemma_tys_view(a@);
                            lemma_tys_view(b@);
                            assert(tys_view(a@)[j as int] != tys_view(b@)[j as int]);
                        }
                        return false;
                    }
                    j += 1;
                }
                proof {
                    lemma_tys_view(a@);
                    lemma_tys_view(b@);
                    assert(tys_view(a@) =~= tys_view(b@));
                }
                true
            },
            (VariantTy::Entry(ka, va), VariantTy::Entry(kb, vb)) => {
                ka.ty_eq(kb) && va.ty_eq(vb)
            },
            _ => false,
        }
    }

    /// An identical copy of this type tree.
    #[verifier::loop_isolation(false)]
    pub fn duplicate(&self) -> (r: VariantTy)
        ensures
            r@ == self@,
        decreases self,
    {
        broadcast use lemma_tys_view;

        match self {
            VariantTy::Bool => VariantTy::Bool,
            VariantTy::Byte => VariantTy::Byte,
            VariantTy::Int16 => VariantTy::Int16,
            VariantTy::Uint16 => VariantTy::Uint16,
            VariantTy::Int32 => VariantTy::Int32,
            VariantTy::Uint32 => VariantTy::Uint32,
            VariantTy::Int64 => VariantTy::Int64,
            VariantTy::Uint64 => VariantTy::Uint64,
            VariantTy::Double => VariantTy::Double,
            VariantTy::Str => VariantTy::Str,
            VariantTy::ObjPath => VariantTy::ObjPath,
            VariantTy::Sig => VariantTy::Sig,
            VariantTy::Var => VariantTy::Var,
            VariantTy::Any => VariantTy::Any,
            VariantTy::Maybe(e) => VariantTy::Maybe(Box::new(e.duplicate())),
            VariantTy::Array(e) => VariantTy::Array(Box::new(e.duplicate())),
            VariantTy::Tuple(ts) => {
                let mut out: Vec<VariantTy> = Vec::new();
                let mut j: usize = 0;
                while j < ts.len()
                    invariant
                        0 <= j <= ts.len(),
                        out@.len() == j,
                        forall|i: int| 0 <= i < j ==> ty_view(out@[i]) == ty_view(ts@[i]),
                    decreases ts.len() - j,
                {
                    let c = ts[j].duplicate();
                    out.push(c);
                    j += 1;
                }
                proof {
                    lemma_tys_view(out@);
                    lemma_tys_view(ts@);
                    assert(tys_view(out@) =~= tys_view(ts@));
                }
                VariantTy::Tuple(out)
            },
            VariantTy::Entry(k, v) => VariantTy::Entry(
                Box::new(k.duplicate()),
                Box::new(v.duplicate()),
            ),
        }
    }

    /// Whether this is a basic (scalar or string-like) type.
    pub fn is_basic(&self) -> (r: bool)
        ensures
            r == self@.is_basic(),
    {
        match self {
            VariantTy::Bool
            | VariantTy::Byte
            | VariantTy::Int16
            | VariantTy::Uint16
            | VariantTy::Int32
            | VariantTy::Uint32
            | VariantTy::Int64
            | VariantTy::Uint64
            | VariantTy::Double
            | VariantTy::Str
            | VariantTy::ObjPath
            | VariantTy::Sig => true,
            _ => false,
        }
    }

    /// Whether this type contains no wildcard.
    #[verifier::loop_isolation(false)]
    pub fn is_definite(&self) -> (r: bool)
        ensures
            r == self@.is_definite(),
        decreases self,
    {
        broadcast use lemma_tys_view;

        match self {
            VariantTy::Any => false,
            VariantTy::Maybe(e) => e.is_definite(),
            VariantTy::Array(e) => e.is_definite(),
            VariantTy::Tuple(ts) => {
                let mut j: usize = 0;
                while j < ts.len()
                    invariant
                        0 <= j <= ts.len(),
                        forall|i: int| 0 <= i < j ==> #[trigger] ty_view(ts@[i]).is_definite(),
                    decreases ts.len() - j,
                {
                    if !ts[j].is_definite() {
                        proof {
                            lemma_tys_view(ts@);
                            TyV::lemma_all_definite(tys_view(ts@));
                            assert(!tys_view(ts@)[j as int].is_definite());
                        }
                        return false;
                    }
                    j += 1;
                }
                proof {
                    lemma_tys_view(ts@);
                    let sv = tys_view(ts@);
                    TyV::lemma_all_definite(sv);
                    assert forall|i: int| 0 <= i < sv.len() implies #[trigger] sv[
                        i
                    ].is_definite() by {
                        assert(ty_view(ts@[i]).is_definite());
                    }
                }
                true
            },
            VariantTy::Entry(k, v) => k.is_definite() && v.is_definite(),
            _ => true,
        }
    }

    /// The canonical signature string of this type.
    #[verifier::loop_isolation(false)]
    pub fn type_string(&self) -> (s: String)
        ensures
            s@ == self@.sig(),
        decreases self,
    {
        broadcast use lemma_tys_view;

        match self {
            VariantTy::Bool => char_string('b'),
            VariantTy::Byte => char_string('y'),
            VariantTy::Int16 => char_string('n'),
            VariantTy::Uint16 => char_string('q'),
            VariantTy::Int32 => char_string('i'),
            VariantTy::Uint32 => char_string('u'),
            VariantTy::Int64 => char_string('x'),
            VariantTy::Uint64 => char_string('t'),
            VariantTy::Double => char_string('d'),
            VariantTy::Str => char_string('s'),
            VariantTy::ObjPath => char_string('o'),
            VariantTy::Sig => char_string('g'),
            VariantTy::Var => char_string('v'),
            VariantTy::Any => char_string('*'),
            VariantTy::Maybe(e) => {
                let mut s = char_string('m');
                let es = e.type_string();
                s.append(es.as_str());
                proof {
                    assert(s@ =~= seq!['m'] + ty_view(**e).sig());
                }
                s
            },
            VariantTy::Array(e) => {
                let mut s = char_string('a');
                let es = e.type_string();
                s.append(es.as_str());
                proof {
                    assert(s@ =~= seq!['a'] + ty_view(**e).sig());
                }
                s
            },
            VariantTy::Tuple(ts) => {
                let mut s = char_string('(');
                let ghost sv = tys_view(ts@);
                proof {
                    lemma_tys_view(ts@);
                }
                let mut j: usize = 0;
                while j < ts.len()
                    invariant
                        0 <= j <= ts.len(),
                        sv == tys_view(ts@),
                        sv.len() == ts@.len(),
                        forall|i: int| 0 <= i < ts@.len() ==> sv[i] == ty_view(ts@[i]),
                        s@ == seq!['('] + TyV::sigs(sv.subrange(0, j as int)),
                    decreases ts.len() - j,
                {
                    let cs = ts[j].type_string();
                    s.append(cs.as_str());
                    proof {
                        let pre = sv.subrange(0, j as int + 1);
                        assert(pre.drop_last() =~= sv.subrange(0, j as int));
                        assert(pre.last() == sv[j as int]);
                        assert(TyV::sigs(pre) == TyV::sigs(pre.drop_last()) + pre.last().sig());
                        assert(s@ =~= seq!['('] + TyV::sigs(pre));
                    }
                    j += 1;
                }
                push_char(&mut s, ')');
                proof {
                    assert(sv.subrange(0, sv.len() as int) =~= sv);
                    assert(s@ =~= seq!['('] + TyV::sigs(sv) + seq![')']);
                }
                s
            },
            VariantTy::Entry(k, v) => {
                let mut s = char_string('{');
                let ks = k.type_string();
                s.append(ks.as_str());
                let vs = v.type_string();
                s.append(vs.as_str());
                push_char(&mut s, '}');
                proof {
                    assert(s@ =~= seq!['{'] + ty_view(**k).sig() + ty_view(**v).sig() + seq!['}']);
                }
                s
            },
        }
    }
}

/// A type tree and its mathematical value sit in the same constructor.
pub proof fn lemma_ty_ctor(t: VariantTy)
    ensures
        (ty_view(t) is Bool <==> t is Bool),
        (ty_view(t) is Byte <==> t is Byte),
        (ty_view(t) is Int16 <==> t is Int16),
        (ty_view(t) is Uint16 <==> t is Uint16),
        (ty_view(t) is Int32 <==> t is Int32),
        (ty_view(t) is Uint32 <==> t is Uint32),
        (ty_view(t) is Int64 <==> t is Int64),
        (ty_view(t) is Uint64 <==> t is Uint64),
        (ty_view(t) is Double <==> t is Double),
        (ty_view(t) is Str <==> t is Str),
        (ty_view(t) is ObjPath <==> t is ObjPath),
        (ty_view(t) is Sig <==> t is Sig),
        (ty_view(t) is Var <==> t is Var),
        (ty_view(t) is Any <==> t is Any),
        (ty_view(t) is Maybe <==> t is Maybe),
        (ty_view(t) is Array <==> t is Array),
        (ty_view(t) is Tuple <==> t is Tuple),
        (ty_view(t) is Entry <==> t is Entry),
{
    match t {
        VariantTy::Bool => {},
        VariantTy::Byte => {},
        VariantTy::Int16 => {},
        VariantTy::Uint16 => {},
        VariantTy::Int32 => {},
        VariantTy::Uint32 => {},
        VariantTy::Int64 => {},
        VariantTy::Uint64 => {},
        VariantTy::Double => {},
        VariantTy::Str => {},
        VariantTy::ObjPath => {},
        VariantTy::Sig => {},
        VariantTy::Var => {},
        VariantTy::Any => {},
        VariantTy::Maybe(_) => {},
        VariantTy::Array(_) => {},
        VariantTy::Tuple(_) => {},
        VariantTy::Entry(_, _) => {},
    }
}

} // verus!
