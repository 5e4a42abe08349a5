//! Type-signature strings, wire signature `g`.
//!
//! A signature string is the canonical rendering of one complete, definite,
//! well-formed wire type.  Validity is defined by the recursive-descent
//! grammar below: one leading type code, `m`/`a` prefixes, parenthesized
//! tuples, and braced dictionary entries with basic keys.

use crate::error::Error;
use crate::ty::{TyV, VariantTy};
use vstd::prelude::*;
use vstd::string::*;

verus! {

/// Parses one complete type from the front of `s`, returning the type and
/// the unconsumed remainder.
pub open spec fn sp_one(s: Seq<char>) -> Option<(TyV, Seq<char>)>
    decreases s.len(), 0int,
{
    if s.len() == 0 {
        None
    } else {
        let c = s[0];
        let rest = s.subrange(1, s.len() as int);
        if c == 'b' {
            Some((TyV::Bool, rest))
        } else if c == 'y' {
            Some((TyV::Byte, rest))
        } else if c == 'n' {
            Some((TyV::Int16, rest))
        } else if c == 'q' {
            Some((TyV::Uint16, rest))
        } else if c == 'i' {
            Some((TyV::Int32, rest))
        } else if c == 'u' {
            Some((TyV::Uint32, rest))
        } else if c == 'x' {
            Some((TyV::Int64, rest))
        } else if c == 't' {
            Some((TyV::Uint64, rest))
        } else if c == 'd' {
            Some((TyV::Double, rest))
        } else if c == 's' {
            Some((TyV::Str, rest))
        } else if c == 'o' {
            Some((TyV::ObjPath, rest))
        } else if c == 'g' {
            Some((TyV::Sig, rest))
        } else if c == 'v' {
            Some((TyV::Var, rest))
        } else if c == 'm' {
            match sp_one(rest) {
                Some((e, r2)) => Some((TyV::Maybe(Box::new(e)), r2)),
                None => None,
            }
        } else if c == 'a' {
            match sp_one(rest) {
                Some((e, r2)) => Some((TyV::Array(Box::new(e)), r2)),
                None => None,
            }
        } else if c == '(' {
            match sp_fields(rest) {
                Some((ts, r2)) => Some((TyV::Tuple(ts), r2)),
                None => None,
            }
        } else if c == '{' {
            match sp_one(rest) {
                Some((k, r2)) => if !k.is_basic() {
                    None
                } else if r2.len() >= s.len() {
                    None
                } else {
                    match sp_one(r2) {
                        Some((v, r3)) => if r3.len() >= 1 && r3[0] == '}' {
                            Some(
                                (
                                    TyV::Entry(Box::new(k), Box::new(v)),
                                    r3.subrange(1, r3.len() as int),
                                ),
                            )
                        } else {
                            None
                        },
                        None => None,
                    }
                },
                None => None,
            }
        } else {
            None
        }
    }
}

/// Parses tuple fields up to and including the closing parenthesis.
pub open spec fn sp_fields(s: Seq<char>) -> Option<(Seq<TyV>, Seq<char>)>
    decreases s.len(), 1int,
{
    if s.len() == 0 {
        None
    } else if s[0] == ')' {
        Some((Seq::empty(), s.subrange(1, s.len() as int)))
    } else {
        match sp_one(s) {
            Some((t, r)) => if r.len() >= s.len() {
                None
            } else {
                match sp_fields(r) {
                    Some((ts, r2)) => Some((seq![t] + ts, r2)),
                    None => None,
                }
            },
            None => None,
        }
    }
}

/// A valid signature string renders exactly one complete type.
pub open spec fn is_valid_signature(s: Seq<char>) -> bool {
    match sp_one(s) {
        Some((t, rest)) => rest.len() == 0,
        None => false,
    }
}

/// What the grammar accepts is sound: the parsed type is well-formed and
/// definite, and renders back to exactly the consumed characters.
pub proof fn lemma_sp_one_sound(s: Seq<char>)
    ensures
        match sp_one(s) {
            Some((t, rest)) => {
                &&& t.wf()
                &&& t.is_definite()
                &&& t.sig() + rest =~= s
                &&& rest.len() < s.len()
            },
            None => true,
        },
    decreases s.len(), 0int,
{
    if s.len() > 0 {
        let c = s[0];
        let rest = s.subrange(1, s.len() as int);
        assert(seq![c] + rest =~= s);
        if c == 'm' || c == 'a' {
            lemma_sp_one_sound(rest);
            if sp_one(rest) is Some {
                let (e, r2) = sp_one(rest)->Some_0;
                assert(seq![c] + e.sig() + r2 =~= s);
            }
        } else if c == '(' {
            lemma_sp_fields_sound(rest);
            if sp_fields(rest) is Some {
                let (ts, r2) = sp_fields(rest)->Some_0;
                TyV::lemma_all_wf(ts);
                TyV::lemma_all_definite(ts);
                assert(seq!['('] + TyV::sigs(ts) + seq![')'] + r2 =~= s);
            }
        } else if c == '{' {
            lemma_sp_one_sound(rest);
            if sp_one(rest) is Some {
                let (k, r2) = sp_one(rest)->Some_0;
                if k.is_basic() && r2.len() < s.len() {
                    lemma_sp_one_sound(r2);
                    if sp_one(r2) is Some {
                        let (v, r3) = sp_one(r2)->Some_0;
                        if r3.len() >= 1 && r3[0] == '}' {
                            let r4 = r3.subrange(1, r3.len() as int);
                            assert(seq!['}'] + r4 =~= r3);
                            assert(seq!['{'] + k.sig() + v.sig() + seq!['}'] + r4 =~= s);
                        }
                    }
                }
            }
        }
    }
}

/// Soundness of the tuple-field grammar: the parsed fields render back to
/// the consumed characters, closing parenthesis included.
pub proof fn lemma_sp_fields_sound(s: Seq<char>)
    ensures
        match sp_fields(s) {
            Some((ts, rest)) => {
                &&& TyV::all_wf(ts)
                &&& TyV::all_definite(ts)
                &&& TyV::sigs(ts) + seq![')'] + rest =~= s
                &&& rest.len() < s.len()
            },
            None => true,
        },
    decreases s.len(), 1int,
{
    if s.len() == 0 {
    } else if s[0] == ')' {
        assert(TyV::sigs(Seq::empty()) =~= Seq::<char>::empty());
    } else {
        lemma_sp_one_sound(s);
        match sp_one(s) {
            Some((t, r)) => {
                if r.len() < s.len() {
                    lemma_sp_fields_sound(r);
                    match sp_fields(r) {
                        Some((ts, r2)) => {
                            lemma_sigs_cons(t, ts);
                            let whole = seq![t] + ts;
                            assert(whole.subrange(1, whole.len() as int) =~= ts);
                            assert(whole[0] == t);
                            assert(TyV::all_wf(whole));
                            assert(TyV::all_definite(whole));
                            assert(TyV::sigs(whole) + seq![')'] + r2 =~= s);
                        },
                        None => {},
                    }
                }
            },
            None => {},
        }
    }
}

/// Rendering a non-empty list of types starts with the first type's
/// rendering.
pub proof fn lemma_sigs_cons(t: TyV, ts: Seq<TyV>)
    ensures
        TyV::sigs(seq![t] + ts) == t.sig() + TyV::sigs(ts),
    decreases ts.len(),
{
    if ts.len() == 0 {
        assert(seq![t] + ts =~= seq![t]);
        assert((seq![t]).drop_last() =~= Seq::<TyV>::empty());
        assert(TyV::sigs(Seq::<TyV>::empty()) == Seq::<char>::empty());
        assert((seq![t]).last() == t);
        assert(TyV::sigs(seq![t]) == TyV::sigs((seq![t]).drop_last()) + (seq![t]).last().sig());
        assert(TyV::sigs(seq![t]) =~= t.sig());
        assert(t.sig() + TyV::sigs(ts) =~= t.sig());
    } else {
        let whole = seq![t] + ts;
        assert(whole.drop_last() =~= seq![t] + ts.drop_last());
        lemma_sigs_cons(t, ts.drop_last());
        assert(whole.last() == ts.last());
        assert(TyV::sigs(whole) == TyV::sigs(seq![t] + ts.drop_last()) + ts.last().sig());
        assert(TyV::sigs(ts) == TyV::sigs(ts.drop_last()) + ts.last().sig());
        assert(t.sig() + TyV::sigs(ts) =~= t.sig() + TyV::sigs(ts.drop_last()) + ts.last().sig());
    }
}

/// The characters of a string, collected for index-based scanning.
#[verifier::loop_isolation(false)]
pub fn chars_of(s: &str) -> (v: Vec<char>)
    ensures
        v@ == s@,
{
    let n = s.unicode_len();
    let mut v: Vec<char> = Vec::new();
    let mut i: usize = 0;
    while i < n
        invariant
            0 <= i <= n,
            v@ =~= s@.subrange(0, i as int),
        decreases n - i,
    {
        v.push(s.get_char(i));
        i += 1;
    }
    proof {
        assert(s@.subrange(0, n as int) =~= s@);
    }
    v
}

/// Executable front-end of [`sp_one`]: parses one complete type starting at
/// position `i`, returning the type and the position after it.
#[verifier::loop_isolation(false)]
pub fn parse_one(chars: &Vec<char>, i: usize) -> (r: Option<(VariantTy, usize)>)
    requires
        i <= chars@.len(),
    ensures
        match r {
            Some((t, j)) => {
                &&& i < j <= chars@.len()
                &&& sp_one(chars@.subrange(i as int, chars@.len() as int)) == Some(
                    (t@, chars@.subrange(j as int, chars@.len() as int)),
                )
            },
            None => sp_one(chars@.subrange(i as int, chars@.len() as int)) is None,
        },
    decreases chars@.len() - i, 0int,
{
    let n = chars.len();
    let ghost sub = chars@.subrange(i as int, n as int);
    if i >= n {
        return None;
    }
    let c = chars[i];
    proof {
        assert(sub[0] == chars@[i as int]);
        assert(sub.subrange(1, sub.len() as int) =~= chars@.subrange(i as int + 1, n as int));
    }
    if c == 'b' {
        Some((VariantTy::Bool, i + 1))
    } else if c == 'y' {
        Some((VariantTy::Byte, i + 1))
    } else if c == 'n' {
        Some((VariantTy::Int16, i + 1))
    } else if c == 'q' {
        Some((VariantTy::Uint16, i + 1))
    } else if c == 'i' {
        Some((VariantTy::Int32, i + 1))
    } else if c == 'u' {
        Some((VariantTy::Uint32, i + 1))
    } else if c == 'x' {
        Some((VariantTy::Int64, i + 1))
    } else if c == 't' {
        Some((VariantTy::Uint64, i + 1))
    } else if c == 'd' {
        Some((VariantTy::Double, i + 1))
    } else if c == 's' {
        Some((VariantTy::Str, i + 1))
    } else if c == 'o' {
        Some((VariantTy::ObjPath, i + 1))
    } else if c == 'g' {
        Some((VariantTy::Sig, i + 1))
    } else if c == 'v' {
        Some((VariantTy::Var, i + 1))
    } else if c == 'm' {
        match parse_one(chars, i + 1) {
            Some((e, j)) => Some((VariantTy::Maybe(Box::new(e)), j)),
            None => None,
        }
    } else if c == 'a' {
        match parse_one(chars, i + 1) {
            Some((e, j)) => Some((VariantTy::Array(Box::new(e)), j)),
            None => None,
        }
    } else if c == '(' {
        match parse_fields(chars, i + 1) {
            Some((ts, j)) => Some((VariantTy::Tuple(ts), j)),
            None => None,
        }
    } else if c == '{' {
        match parse_one(chars, i + 1) {
            Some((k, j2)) => {
                if !k.is_basic() {
                    return None;
                }
                proof {
                    assert(chars@.subrange(j2 as int, n as int).len() < sub.len());
                }
                match parse_one(chars, j2) {
                    Some((v, j3)) => {
                        proof {
                            assert(chars@.subrange(j3 as int, n as int).len() >= 1 ==> chars@.subrange(
                                j3 as int,
                                n as int,
                            )[0] == chars@[j3 as int]);
                        }
                        if j3 < n && chars[j3] == '}' {
                            proof {
                                assert(chars@.subrange(j3 as int, n as int).subrange(
                                    1,
                                    chars@.subrange(j3 as int, n as int).len() as int,
                                ) =~= chars@.subrange(j3 as int + 1, n as int));
                            }
                            Some((VariantTy::Entry(Box::new(k), Box::new(v)), j3 + 1))
                        } else {
                            None
                        }
                    },
                    None => None,
                }
            },
            None => None,
        }
    } else {
        None
    }
}

/// Executable front-end of [`sp_fields`]: parses tuple fields up to and
/// including the closing parenthesis.
#[verifier::loop_isolation(false)]
pub fn parse_fields(chars: &Vec<char>, i: usize) -> (r: Option<(Vec<VariantTy>, usize)>)
    requires
        i <= chars@.len(),
    ensures
        match r {
            Some((ts, j)) => {
                &&& i < j <= chars@.len()
                &&& sp_fields(chars@.subrange(i as int, chars@.len() as int)) == Some(
                    (crate::ty::tys_view(ts@), chars@.subrange(j as int, chars@.len() as int)),
                )
            },
            None => sp_fields(chars@.subrange(i as int, chars@.len() as int)) is None,
        },
    decreases chars@.len() - i, 1int,
{
    let n = chars.len();
    let ghost sub = chars@.subrange(i as int, n as int);
    if i >= n {
        return None;
    }
    proof {
        assert(sub[0] == chars@[i as int]);
    }
    if chars[i] == ')' {
        let ts: Vec<VariantTy> = Vec::new();
        proof {
            assert(crate::ty::tys_view(ts@) =~= Seq::<TyV>::empty());
            assert(sub.subrange(1, sub.len() as int) =~= chars@.subrange(i as int + 1, n as int));
        }
        return Some((ts, i + 1));
    }
    match parse_one(chars, i) {
        Some((t, j)) => {
            match parse_fields(chars, j) {
                Some((ts, j2)) => {
                    let mut out: Vec<VariantTy> = Vec::new();
                    out.push(t);
                    let mut rest = ts;
                    out.append(&mut rest);
                    proof {
                        crate::ty::lemma_tys_view(out@);
                        crate::ty::lemma_tys_view(ts@);
                        assert(crate::ty::tys_view(out@) =~= seq![ty_view_of(&out, 0)] + crate::ty::tys_view(
                            ts@,
                        ));
                    }
                    Some((out, j2))
                },
                None => None,
            }
        },
        None => None,
    }
}

/// The view of one element of a vector of types.
pub open spec fn ty_view_of(v: &Vec<VariantTy>, i: int) -> TyV {
    crate::ty::ty_view(v@[i])
}

/// Parses a whole string as a single complete type.
pub fn parse_signature(s: &str) -> (r: Option<VariantTy>)
    ensures
        match r {
            Some(t) => {
                &&& is_valid_signature(s@)
                &&& t@.sig() == s@
                &&& t@.wf()
                &&& t@.is_definite()
            },
            None => !is_valid_signature(s@),
        },
{
    let chars = chars_of(s);
    proof {
        assert(chars@.subrange(0, chars@.len() as int) =~= s@);
    }
    match parse_one(&chars, 0) {
        Some((t, j)) => {
            if j == chars.len() {
                proof {
                    lemma_sp_one_sound(s@);
                    assert(chars@.subrange(j as int, chars@.len() as int).len() == 0);
                    assert(t@.sig() + chars@.subrange(j as int, chars@.len() as int) =~= t@.sig());
                }
                Some(t)
            } else {
                proof {
                    assert(chars@.subrange(j as int, chars@.len() as int).len() != 0);
                }
                None
            }
        },
        None => None,
    }
}

/// Wrapper type for strings that are well-formed type signatures; its wire
/// signature is `g`.
#[derive(Debug, PartialEq, Eq)]
pub struct Signature {
    inner: String,
}

impl View for Signature {
    type V = Seq<char>;

    closed spec fn view(&self) -> Seq<char> {
        self.inner@
    }
}

impl Signature {
    /// The contained string is always a valid signature.
    pub open spec fn wf(self) -> bool {
        is_valid_signature(self@)
    }

    /// Validates `s` and wraps it.  Returns the string that failed when it
    /// is not a signature.
    pub fn new(s: &str) -> (r: Result<Signature, Error>)
        ensures
            is_valid_signature(s@) <==> r is Ok,
            r is Ok ==> r->Ok_0@ == s@ && r->Ok_0.wf(),
            r is Err ==> r->Err_0@ == crate::error::ErrorV::ValidationFailure(s@),
    {
        match parse_signature(s) {
            Some(_) => Ok(Signature { inner: s.to_owned() }),
            None => Err(Error::ValidationFailure(s.to_owned())),
        }
    }

    /// The signature as a plain string slice.
    pub fn as_str(&self) -> (r: &str)
        ensures
            r@ == self@,
    {
        self.inner.as_str()
    }
}

/// Checks the signature predicate on a string.
pub fn signature_is_valid(s: &str) -> (r: bool)
    ensures
        r == is_valid_signature(s@),
{
    match parse_signature(s) {
        Some(_) => true,
        None => false,
    }
}

} // verus!
