//! The canonical text rendering of wire values, used as a human-readable
//! round-trip fixture.
//!
//! Containers render as `[..]`, `(..)`, `{k: v, ..}` and `<..>`; absent
//! optionals render as `nothing`.  Inside a dynamic box the content is
//! annotated: a type keyword before integers that are not the default
//! 32-bit signed kind, and an `@sig` prefix before optionals and empty
//! arrays.  Doubles carry no text rendering here, because formatting
//! binary floating point is outside this crate; rendering a value that
//! contains one reports its type as unsupported.

use crate::error::{Error, ErrorV};
use crate::ty::TyV;
use crate::util::{char_string, push_char};
use crate::variant::{Variant, VariantV};
use vstd::prelude::*;
use vstd::string::*;

verus! {

/// The decimal digits of a natural number, most significant first.
pub open spec fn spec_dec(n: nat) -> Seq<char>
    decreases n,
{
    if n < 10 {
        seq![spec_digit(n)]
    } else {
        spec_dec(n / 10) + seq![spec_digit(n % 10)]
    }
}

/// One decimal digit character.
pub open spec fn spec_digit(n: nat) -> char {
    if n == 0 {
        '0'
    } else if n == 1 {
        '1'
    } else if n == 2 {
        '2'
    } else if n == 3 {
        '3'
    } else if n == 4 {
        '4'
    } else if n == 5 {
        '5'
    } else if n == 6 {
        '6'
    } else if n == 7 {
        '7'
    } else if n == 8 {
        '8'
    } else {
        '9'
    }
}

/// The text of a signed integer.
pub open spec fn spec_int_text(x: int) -> Seq<char> {
    if x < 0 {
        seq!['-'] + spec_dec((-x) as nat)
    } else {
        spec_dec(x as nat)
    }
}

/// One hexadecimal digit character.
pub open spec fn spec_hex_digit(n: nat) -> char {
    if n < 10 {
        spec_digit(n)
    } else if n == 10 {
        'a'
    } else if n == 11 {
        'b'
    } else if n == 12 {
        'c'
    } else if n == 13 {
        'd'
    } else if n == 14 {
        'e'
    } else {
        'f'
    }
}

/// A byte as `0x` and two hexadecimal digits.
pub open spec fn spec_hex_byte(b: u8) -> Seq<char> {
    seq!['0', 'x', spec_hex_digit((b / 16) as nat), spec_hex_digit((b % 16) as nat)]
}

/// A string quoted for the text form: single quotes, with the quote and
/// the backslash escaped.
pub open spec fn spec_quoted(s: Seq<char>) -> Seq<char> {
    seq!['\''] + spec_escaped(s) + seq!['\'']
}

/// The escaped body of a quoted string.
pub open spec fn spec_escaped(s: Seq<char>) -> Seq<char>
    decreases s,
{
    if s.len() == 0 {
        Seq::empty()
    } else {
        spec_escaped(s.drop_last()) + (if s.last() == '\'' || s.last() == '\\' {
            seq!['\\', s.last()]
        } else {
            seq![s.last()]
        })
    }
}

/// The decimal digits of a natural number, executable side.
pub fn dec_u64(n: u64) -> (r: String)
    ensures
        r@ == spec_dec(n as nat),
    decreases n,
{
    if n < 10 {
        char_string(digit(n as u8))
    } else {
        let mut s = dec_u64(n / 10);
        push_char(&mut s, digit((n % 10) as u8));
        s
    }
}

/// One decimal digit character, executable side.
pub fn digit(n: u8) -> (c: char)
    requires
        n < 10,
    ensures
        c == spec_digit(n as nat),
{
    match n {
        0 => '0',
        1 => '1',
        2 => '2',
        3 => '3',
        4 => '4',
        5 => '5',
        6 => '6',
        7 => '7',
        8 => '8',
        _ => '9',
    }
}

/// One hexadecimal digit character, executable side.
pub fn hex_digit(n: u8) -> (c: char)
    requires
        n < 16,
    ensures
        c == spec_hex_digit(n as nat),
{
    if n < 10 {
        digit(n)
    } else {
        match n {
            10 => 'a',
            11 => 'b',
            12 => 'c',
            13 => 'd',
            14 => 'e',
            _ => 'f',
        }
    }
}

/// The text of a signed 64-bit integer.
pub fn dec_i64(x: i64) -> (r: String)
    ensures
        r@ == spec_int_text(x as int),
{
    if x < 0 {
        let mag: u64 = ((-(x as i128)) as u64);
        let mut s = char_string('-');
        let d = dec_u64(mag);
        s.append(d.as_str());
        proof {
            assert(s@ =~= seq!['-'] + spec_dec((-(x as int)) as nat));
        }
        s
    } else {
        dec_u64(x as u64)
    }
}

/// A byte as `0x` and two hexadecimal digits, executable side.
pub fn hex_byte(b: u8) -> (r: String)
    ensures
        r@ == spec_hex_byte(b),
{
    let mut s = char_string('0');
    push_char(&mut s, 'x');
    push_char(&mut s, hex_digit(b / 16));
    push_char(&mut s, hex_digit(b % 16));
    proof {
        assert(s@ =~= spec_hex_byte(b));
    }
    s
}

/// Quotes a string for the text form.
#[verifier::loop_isolation(false)]
pub fn quoted(s: &str) -> (r: String)
    ensures
        r@ == spec_quoted(s@),
{
    let n = s.unicode_len();
    let mut out = char_string('\'');
    let mut i: usize = 0;
    while i < n
        invariant
            0 <= i <= n,
            out@ == seq!['\''] + spec_escaped(s@.subrange(0, i as int)),
        decreases n - i,
    {
        let c = s.get_char(i);
        if c == '\'' || c == '\\' {
            push_char(&mut out, '\\');
        }
        push_char(&mut out, c);
        proof {
            assert(s@.subrange(0, i as int + 1).drop_last() =~= s@.subrange(0, i as int));
            assert(s@.subrange(0, i as int + 1).last() == s@[i as int]);
            assert(out@ =~= seq!['\''] + spec_escaped(s@.subrange(0, i as int + 1)));
        }
        i += 1;
    }
    push_char(&mut out, '\'');
    proof {
        assert(s@.subrange(0, n as int) =~= s@);
        assert(out@ =~= spec_quoted(s@));
    }
    out
}

/// What the text rendering of a wire value is; `None` when the value
/// contains a double.  `ann` asks for type annotations, as inside a
/// dynamic box.
pub open spec fn spec_render(v: VariantV, ann: bool) -> Option<Seq<char>>
    decreases v, 2int,
{
    match v {
        VariantV::Bool(b) => Some(
            if b {
                "true"@
            } else {
                "false"@
            },
        ),
        VariantV::Byte(x) => Some(
            if ann {
                "byte "@ + spec_hex_byte(x)
            } else {
                spec_hex_byte(x)
            },
        ),
        VariantV::Int16(x) => Some(
            if ann {
                "int16 "@ + spec_int_text(x as int)
            } else {
                spec_int_text(x as int)
            },
        ),
        VariantV::Uint16(x) => Some(
            if ann {
                "uint16 "@ + spec_dec(x as nat)
            } else {
                spec_dec(x as nat)
            },
        ),
        VariantV::Int32(x) => Some(spec_int_text(x as int)),
        VariantV::Uint32(x) => Some(
            if ann {
                "uint32 "@ + spec_dec(x as nat)
            } else {
                spec_dec(x as nat)
            },
        ),
        VariantV::Int64(x) => Some(
            if ann {
                "int64 "@ + spec_int_text(x as int)
            } else {
                spec_int_text(x as int)
            },
        ),
        VariantV::Uint64(x) => Some(
            if ann {
                "uint64 "@ + spec_dec(x as nat)
            } else {
                spec_dec(x as nat)
            },
        ),
        VariantV::Double(_) => None,
        VariantV::Str(s) => Some(spec_quoted(s)),
        VariantV::ObjPath(s) => Some(
            if ann {
                "objectpath "@ + spec_quoted(s)
            } else {
                spec_quoted(s)
            },
        ),
        VariantV::Sig(s) => Some(
            if ann {
                "signature "@ + spec_quoted(s)
            } else {
                spec_quoted(s)
            },
        ),
        VariantV::Maybe { elem, inner } => match inner {
            None => Some(
                if ann {
                    seq!['@', 'm'] + elem.sig() + " nothing"@
                } else {
                    "nothing"@
                },
            ),
            Some(x) => match spec_render(*x, false) {
                None => None,
                Some(t) => Some(
                    if ann {
                        seq!['@', 'm'] + elem.sig() + seq![' '] + t
                    } else if *x is Maybe {
                        "just "@ + t
                    } else {
                        t
                    },
                ),
            },
        },
        VariantV::Array { elem, items } => if elem is Entry {
            match spec_render_entries(items, ann) {
                None => None,
                Some(t) => Some(seq!['{'] + t + seq!['}']),
            }
        } else if items.len() == 0 {
            Some(
                if ann {
                    seq!['@', 'a'] + elem.sig() + " []"@
                } else {
                    "[]"@
                },
            )
        } else {
            match spec_render_list(items, ann) {
                None => None,
                Some(t) => Some(seq!['['] + t + seq![']']),
            }
        },
        VariantV::Tuple(items) => match spec_render_tuple(items, ann) {
            None => None,
            Some(t) => Some(
                seq!['('] + t + (if items.len() == 1 {
                    ",)"@
                } else {
                    ")"@
                }),
            ),
        },
        VariantV::Entry(k, kv) => match spec_render(*k, ann) {
            None => None,
            Some(kt) => match spec_render(*kv, ann) {
                None => None,
                Some(vt) => Some(seq!['{'] + kt + ": "@ + vt + seq!['}']),
            },
        },
        VariantV::Boxed(x) => match spec_render(*x, true) {
            None => None,
            Some(t) => Some(seq!['<'] + t + seq!['>']),
        },
    }
}

/// The comma-joined renderings of an array's children, the first one
/// annotated when asked.
pub open spec fn spec_render_list(items: Seq<VariantV>, ann: bool) -> Option<Seq<char>>
    decreases items, 1int,
{
    if items.len() == 0 {
        Some(Seq::empty())
    } else {
        match spec_render(items[0], ann) {
            None => None,
            Some(t) => if items.len() == 1 {
                Some(t)
            } else {
                match spec_render_list(items.subrange(1, items.len() as int), false) {
                    None => None,
                    Some(rest) => Some(t + ", "@ + rest),
                }
            },
        }
    }
}

/// The comma-joined renderings of a tuple's children, each annotated
/// when asked.
pub open spec fn spec_render_tuple(items: Seq<VariantV>, ann: bool) -> Option<Seq<char>>
    decreases items, 1int,
{
    if items.len() == 0 {
        Some(Seq::empty())
    } else {
        match spec_render(items[0], ann) {
            None => None,
            Some(t) => if items.len() == 1 {
                Some(t)
            } else {
                match spec_render_tuple(items.subrange(1, items.len() as int), ann) {
                    None => None,
                    Some(rest) => Some(t + ", "@ + rest),
                }
            },
        }
    }
}

/// The comma-joined `key: value` renderings of a dictionary's entries,
/// the first entry annotated when asked; a child that is not an entry
/// has no rendering.
pub open spec fn spec_render_entries(items: Seq<VariantV>, ann: bool) -> Option<Seq<char>>
    decreases items, 1int,
{
    if items.len() == 0 {
        Some(Seq::empty())
    } else {
        match items[0] {
            VariantV::Entry(k, v) => match spec_render(*k, ann) {
                None => None,
                Some(kt) => match spec_render(*v, ann) {
                    None => None,
                    Some(vt) => if items.len() == 1 {
                        Some(kt + ": "@ + vt)
                    } else {
                        match spec_render_entries(
                            items.subrange(1, items.len() as int),
                            false,
                        ) {
                            None => None,
                            Some(rest) => Some(kt + ": "@ + vt + ", "@ + rest),
                        }
                    },
                },
            },
            _ => None,
        }
    }
}

/// The executable rendering agrees with the specified one; a value that
/// contains a double reports the double type as unsupported, and a
/// dictionary child that is no entry reports a mismatch.
pub open spec fn render_res_eq(r: Result<String, Error>, s: Option<Seq<char>>) -> bool {
    match r {
        Ok(t) => s == Some(t@),
        Err(e) => s is None && (e@ == ErrorV::UnsupportedType(TyV::Double) || e@ matches
            ErrorV::TypeMismatch(_)),
    }
}

/// Renders a wire value in the canonical text form; `ann` asks for type
/// annotations, as inside a dynamic box.
#[verifier::loop_isolation(false)]
pub fn render(v: &Variant, ann: bool) -> (r: Result<String, Error>)
    ensures
        render_res_eq(r, spec_render(v@, ann)),
    decreases v, 2int,
{
    proof {
        crate::deserializer::lemma_var_ctor(*v);
    }
    match v {
        Variant::Bool(b) => Ok(
            if *b {
                String::from_str("true")
            } else {
                String::from_str("false")
            },
        ),
        Variant::Byte(x) => {
            let h = hex_byte(*x);
            if ann {
                let mut t = String::from_str("byte ");
                t.append(h.as_str());
                Ok(t)
            } else {
                Ok(h)
            }
        },
        Variant::Int16(x) => {
            let d = dec_i64(*x as i64);
            if ann {
                let mut t = String::from_str("int16 ");
                t.append(d.as_str());
                Ok(t)
            } else {
                Ok(d)
            }
        },
        Variant::Uint16(x) => {
            let d = dec_u64(*x as u64);
            if ann {
                let mut t = String::from_str("uint16 ");
                t.append(d.as_str());
                Ok(t)
            } else {
                Ok(d)
            }
        },
        Variant::Int32(x) => Ok(dec_i64(*x as i64)),
        Variant::Uint32(x) => {
            let d = dec_u64(*x as u64);
            if ann {
                let mut t = String::from_str("uint32 ");
                t.append(d.as_str());
                Ok(t)
            } else {
                Ok(d)
            }
        },
        Variant::Int64(x) => {
            let d = dec_i64(*x);
            if ann {
                let mut t = String::from_str("int64 ");
                t.append(d.as_str());
                Ok(t)
            } else {
                Ok(d)
            }
        },
        Variant::Uint64(x) => {
            let d = dec_u64(*x);
            if ann {
                let mut t = String::from_str("uint64 ");
                t.append(d.as_str());
                Ok(t)
            } else {
                Ok(d)
            }
        },
        Variant::Double(_) => Err(Error::UnsupportedType(crate::ty::VariantTy::Double)),
        Variant::Str(s) => Ok(quoted(s.as_str())),
        Variant::ObjPath(s) => {
            let q = quoted(s.as_str());
            if ann {
                let mut t = String::from_str("objectpath ");
                t.append(q.as_str());
                Ok(t)
            } else {
                Ok(q)
            }
        },
        Variant::Sig(s) => {
            let q = quoted(s.as_str());
            if ann {
                let mut t = String::from_str("signature ");
                t.append(q.as_str());
                Ok(t)
            } else {
                Ok(q)
            }
        },
        Variant::Maybe { elem, inner } => {
            let r: Result<String, Error> = match inner {
            None => {
                if ann {
                    let mut t = String::from_str("@m");
                    let es = elem.type_string();
                    t.append(es.as_str());
                    t.append(" nothing");
                    proof {
                        reveal_strlit("@m");
                        reveal_strlit(" nothing");
                        assert(t@ =~= seq!['@', 'm'] + crate::ty::ty_view(*elem).sig()
                            + " nothing"@);
                    }
                    Ok(t)
                } else {
                    Ok(String::from_str("nothing"))
                }
            },
            Some(x) => {
                match render(x, false) {
                    Err(e) => Err(e),
                    Ok(inner_t) => {
                        if ann {
                            let mut t = String::from_str("@m");
                            let es = elem.type_string();
                            t.append(es.as_str());
                            push_char(&mut t, ' ');
                            t.append(inner_t.as_str());
                            proof {
                                reveal_strlit("@m");
                                assert(t@ =~= seq!['@', 'm'] + crate::ty::ty_view(*elem).sig()
                                    + seq![' '] + inner_t@);
                            }
                            Ok(t)
                        } else {
                            let nested = match &**x {
                                Variant::Maybe { elem: _, inner: _ } => true,
                                _ => false,
                            };
                            proof {
                                crate::deserializer::lemma_var_ctor(**x);
                            }
                            if nested {
                                let mut t = String::from_str("just ");
                                t.append(inner_t.as_str());
                                Ok(t)
                            } else {
                                Ok(inner_t)
                            }
                        }
                    },
                }
            },
            };
            proof {
                assert(render_res_eq(r, spec_render(v@, ann)));
            }
            r
        },
        Variant::Array { elem, items } => {
            let r: Result<String, Error> = {
            let entryish = match elem {
                crate::ty::VariantTy::Entry(_, _) => true,
                _ => false,
            };
            proof {
                crate::ty::lemma_ty_ctor(*elem);
                crate::variant::lemma_vars_view(items@);
                assert(crate::variant::vars_view(items@).subrange(0, items@.len() as int)
                    =~= crate::variant::vars_view(items@));
            }
            if entryish {
                match render_entries(items, ann, 0) {
                    Err(e) => Err(e),
                    Ok(t) => {
                        let ghost tv = t@;
                        let mut out = char_string('{');
                        out.append(t.as_str());
                        push_char(&mut out, '}');
                        proof {
                            crate::variant::lemma_vars_view(items@);
                            assert(crate::variant::vars_view(items@).subrange(
                                0,
                                items@.len() as int,
                            ) =~= crate::variant::vars_view(items@));
                            assert(out@ =~= seq!['{'] + tv + seq!['}']);
                        }
                        Ok(out)
                    },
                }
            } else if items.len() == 0 {
                proof {
                    crate::variant::lemma_vars_view(items@);
                }
                if ann {
                    let mut t = String::from_str("@a");
                    let es = elem.type_string();
                    t.append(es.as_str());
                    t.append(" []");
                    proof {
                        reveal_strlit("@a");
                        reveal_strlit(" []");
                        assert(t@ =~= seq!['@', 'a'] + crate::ty::ty_view(*elem).sig()
                            + " []"@);
                    }
                    Ok(t)
                } else {
                    Ok(String::from_str("[]"))
                }
            } else {
                match render_list(items, ann, 0) {
                    Err(e) => Err(e),
                    Ok(t) => {
                        let ghost tv = t@;
                        let mut out = char_string('[');
                        out.append(t.as_str());
                        push_char(&mut out, ']');
                        proof {
                            crate::variant::lemma_vars_view(items@);
                            assert(crate::variant::vars_view(items@).subrange(
                                0,
                                items@.len() as int,
                            ) =~= crate::variant::vars_view(items@));
                            assert(out@ =~= seq!['['] + tv + seq![']']);
                        }
                        Ok(out)
                    },
                }
            }
            };
            proof {
                assert(render_res_eq(r, spec_render(v@, ann)));
            }
            r
        },
        Variant::Tuple(items) => {
            let r: Result<String, Error> = {
            proof {
                crate::variant::lemma_vars_view(items@);
                assert(crate::variant::vars_view(items@).subrange(0, items@.len() as int)
                    =~= crate::variant::vars_view(items@));
            }
            match render_tuple(items, ann, 0) {
                Err(e) => Err(e),
                Ok(t) => {
                    let ghost tv = t@;
                    let mut out = char_string('(');
                    out.append(t.as_str());
                    proof {
                        crate::variant::lemma_vars_view(items@);
                        assert(crate::variant::vars_view(items@).subrange(
                            0,
                            items@.len() as int,
                        ) =~= crate::variant::vars_view(items@));
                    }
                    if items.len() == 1 {
                        out.append(",)");
                        proof {
                            assert(out@ =~= seq!['('] + tv + ",)"@);
                        }
                    } else {
                        push_char(&mut out, ')');
                        proof {
                            reveal_strlit(")");
                            assert(")"@ =~= seq![')']);
                            assert(out@ =~= seq!['('] + tv + ")"@);
                        }
                    }
                    Ok(out)
                },
            }
            };
            proof {
                assert(render_res_eq(r, spec_render(v@, ann)));
            }
            r
        },
        Variant::Entry(k, kv) => {
            let r: Result<String, Error> = match render(k, ann) {
                Err(e) => Err(e),
                Ok(kt) => match render(kv, ann) {
                    Err(e) => Err(e),
                    Ok(vt) => {
                        let ghost ktv = kt@;
                        let ghost vtv = vt@;
                        let mut out = char_string('{');
                        out.append(kt.as_str());
                        out.append(": ");
                        out.append(vt.as_str());
                        push_char(&mut out, '}');
                        proof {
                            reveal_strlit(": ");
                            assert(out@ =~= seq!['{'] + ktv + ": "@ + vtv + seq!['}']);
                        }
                        Ok(out)
                    },
                },
            };
            proof {
                assert(render_res_eq(r, spec_render(v@, ann)));
            }
            r
        },
        Variant::Boxed(x) => {
            let r: Result<String, Error> = match render(x, true) {
                Err(e) => Err(e),
                Ok(t) => {
                    let ghost tv = t@;
                    let mut out = char_string('<');
                    out.append(t.as_str());
                    push_char(&mut out, '>');
                    proof {
                        assert(out@ =~= seq!['<'] + tv + seq!['>']);
                    }
                    Ok(out)
                },
            };
            proof {
                assert(render_res_eq(r, spec_render(v@, ann)));
            }
            r
        },
    }
}

/// Renders an array's children from position `j` on, the first one
/// annotated when asked.
pub fn render_list(items: &Vec<Variant>, ann: bool, j: usize) -> (r: Result<String, Error>)
    requires
        j <= items@.len(),
    ensures
        render_res_eq(
            r,
            spec_render_list(
                crate::variant::vars_view(items@).subrange(j as int, items@.len() as int),
                ann,
            ),
        ),
    decreases items, items@.len() - j, 1int,
{
    let ghost vv = crate::variant::vars_view(items@);
    let ghost sub = vv.subrange(j as int, items@.len() as int);
    proof {
        crate::variant::lemma_vars_view(items@);
    }
    if j == items.len() {
        return Ok(String::new());
    }
    proof {
        assert(sub[0] == crate::variant::var_view(items@[j as int]));
        assert(sub.subrange(1, sub.len() as int) =~= vv.subrange(
            j as int + 1,
            items@.len() as int,
        ));
    }
    match render(&items[j], ann) {
        Err(e) => Err(e),
        Ok(t) => {
            if j + 1 == items.len() {
                Ok(t)
            } else {
                match render_list(items, false, j + 1) {
                    Err(e) => Err(e),
                    Ok(rest) => {
                        let mut out = t;
                        out.append(", ");
                        out.append(rest.as_str());
                        proof {
                            reveal_strlit(", ");
                        }
                        Ok(out)
                    },
                }
            }
        },
    }
}

/// Renders a tuple's children from position `j` on, each annotated when
/// asked.
pub fn render_tuple(items: &Vec<Variant>, ann: bool, j: usize) -> (r: Result<String, Error>)
    requires
        j <= items@.len(),
    ensures
        render_res_eq(
            r,
            spec_render_tuple(
                crate::variant::vars_view(items@).subrange(j as int, items@.len() as int),
                ann,
            ),
        ),
    decreases items, items@.len() - j, 1int,
{
    let ghost vv = crate::variant::vars_view(items@);
    let ghost sub = vv.subrange(j as int, items@.len() as int);
    proof {
        crate::variant::lemma_vars_view(items@);
    }
    if j == items.len() {
        return Ok(String::new());
    }
    proof {
        assert(sub[0] == crate::variant::var_view(items@[j as int]));
        assert(sub.subrange(1, sub.len() as int) =~= vv.subrange(
            j as int + 1,
            items@.len() as int,
        ));
    }
    match render(&items[j], ann) {
        Err(e) => Err(e),
        Ok(t) => {
            if j + 1 == items.len() {
                Ok(t)
            } else {
                match render_tuple(items, ann, j + 1) {
                    Err(e) => Err(e),
                    Ok(rest) => {
                        let mut out = t;
                        out.append(", ");
                        out.append(rest.as_str());
                        proof {
                            reveal_strlit(", ");
                        }
                        Ok(out)
                    },
                }
            }
        },
    }
}

/// Renders a dictionary's entries from position `j` on as `key: value`,
/// the first entry annotated when asked.
pub fn render_entries(items: &Vec<Variant>, ann: bool, j: usize) -> (r: Result<String, Error>)
    requires
        j <= items@.len(),
    ensures
        match r {
            Ok(t) => spec_render_entries(
                crate::variant::vars_view(items@).subrange(j as int, items@.len() as int),
                ann,
            ) == Some(t@),
            Err(e) => spec_render_entries(
                crate::variant::vars_view(items@).subrange(j as int, items@.len() as int),
                ann,
            ) is None && (e@ == ErrorV::UnsupportedType(TyV::Double) || e@ matches
                ErrorV::TypeMismatch(_)),
        },
    decreases items, items@.len() - j, 1int,
{
    let ghost vv = crate::variant::vars_view(items@);
    let ghost sub = vv.subrange(j as int, items@.len() as int);
    proof {
        crate::variant::lemma_vars_view(items@);
    }
    if j == items.len() {
        return Ok(String::new());
    }
    proof {
        assert(sub[0] == crate::variant::var_view(items@[j as int]));
        assert(sub.subrange(1, sub.len() as int) =~= vv.subrange(
            j as int + 1,
            items@.len() as int,
        ));
        crate::deserializer::lemma_var_ctor(items@[j as int]);
    }
    match &items[j] {
        Variant::Entry(k, kv) => {
            match render(k, ann) {
                Err(e) => Err(e),
                Ok(kt) => match render(kv, ann) {
                    Err(e) => Err(e),
                    Ok(vt) => {
                        if j + 1 == items.len() {
                            let mut out = kt;
                            out.append(": ");
                            out.append(vt.as_str());
                            proof {
                                reveal_strlit(": ");
                            }
                            Ok(out)
                        } else {
                            match render_entries(items, false, j + 1) {
                                Err(e) => Err(e),
                                Ok(rest) => {
                                    let mut out = kt;
                                    out.append(": ");
                                    out.append(vt.as_str());
                                    out.append(", ");
                                    out.append(rest.as_str());
                                    proof {
                                        reveal_strlit(": ");
                                        reveal_strlit(", ");
                                    }
                                    Ok(out)
                                },
                            }
                        }
                    },
                },
            }
        },
        _ => Err(Error::TypeMismatch(items[j].type_())),
    }
}

/// The canonical text of a wire value, unannotated at the top level, as
/// its display form.
pub fn to_text(v: &Variant) -> (r: Result<String, Error>)
    ensures
        render_res_eq(r, spec_render(v@, false)),
{
    render(v, false)
}

} // verus!
