//! Flag sets resolved through a registry of named bits.
//!
//! A [`FlagsClass`] models the registry for one flags type.  A
//! [`FlagsValue`] renders as the `|`-joined nicks of its set bits in
//! registry order, with the empty string for the zero value, and parses
//! back by splitting on `|` and or-ing each named bit; a
//! [`FlagsReprValue`] encodes the raw bit mask directly.

use crate::error::Error;
use crate::util::push_char;
use crate::variant::{Variant, VariantV};
use vstd::prelude::*;
use vstd::string::*;

verus! {

/// One registered flag bit (or combination) of a flags type.
#[derive(Debug, PartialEq, Eq)]
pub struct FlagsMember {
    pub bits: u32,
    pub name: String,
    pub nick: String,
}

/// The mathematical model of a [`FlagsMember`].
#[verifier::ext_equal]
pub struct FlagsMemberV {
    pub bits: u32,
    pub name: Seq<char>,
    pub nick: Seq<char>,
}

impl View for FlagsMember {
    type V = FlagsMemberV;

    open spec fn view(&self) -> FlagsMemberV {
        FlagsMemberV { bits: self.bits, name: self.name@, nick: self.nick@ }
    }
}

/// The registry for one flags type: its members in declaration order.
#[derive(Debug, PartialEq, Eq)]
pub struct FlagsClass {
    pub members: Vec<FlagsMember>,
}

impl View for FlagsClass {
    type V = Seq<FlagsMemberV>;

    open spec fn view(&self) -> Seq<FlagsMemberV> {
        Seq::new(self.members@.len(), |i: int| self.members@[i]@)
    }
}

/// The rendering of a flag set: walking the registry in order, every
/// member whose bits are all still present contributes its nick and
/// clears those bits; nicks are joined with `|`.
pub open spec fn spec_flags_text(ms: Seq<FlagsMemberV>, at: int, rem: u32, first: bool) -> Seq<
    char,
>
    decreases ms.len() - at,
{
    if at < 0 || at >= ms.len() {
        Seq::empty()
    } else {
        let m = ms[at];
        if (rem & m.bits) == m.bits {
            let rest = spec_flags_text(ms, at + 1, rem & !m.bits, false);
            if first {
                m.nick + rest
            } else {
                seq!['|'] + m.nick + rest
            }
        } else {
            spec_flags_text(ms, at + 1, rem, first)
        }
    }
}

/// The position of the first `|` at or after `from`, or the length.
pub open spec fn spec_bar_pos(s: Seq<char>, from: int) -> int
    decreases s.len() - from,
{
    if from < 0 || from >= s.len() {
        s.len() as int
    } else if s[from] == '|' {
        from
    } else {
        spec_bar_pos(s, from + 1)
    }
}

/// The first member with the given nick, scanning from `at`.
pub open spec fn spec_flags_by_nick(ms: Seq<FlagsMemberV>, nick: Seq<char>, at: int) -> Option<
    int,
>
    decreases ms.len() - at,
{
    if at < 0 || at >= ms.len() {
        None
    } else if ms[at].nick == nick {
        Some(at)
    } else {
        spec_flags_by_nick(ms, nick, at + 1)
    }
}

/// Parsing of a non-empty `|`-joined nick list: each token must name a
/// member, whose bits are or-ed together; an unknown token is the error.
pub open spec fn spec_parse_tokens(ms: Seq<FlagsMemberV>, s: Seq<char>) -> Result<u32, Seq<char>>
    decreases s.len(),
{
    let p = spec_bar_pos(s, 0);
    proof {
        lemma_bar_pos(s, 0);
    }
    let tok = s.subrange(0, p);
    match spec_flags_by_nick(ms, tok, 0) {
        None => Err(tok),
        Some(i) => if p == s.len() {
            Ok(ms[i].bits)
        } else {
            match spec_parse_tokens(ms, s.subrange(p + 1, s.len() as int)) {
                Ok(b) => Ok(ms[i].bits | b),
                Err(e) => Err(e),
            }
        },
    }
}

/// What parsing a flags string yields: the empty string is the zero
/// value, anything else is a `|`-joined nick list.
pub open spec fn spec_parse_flags(ms: Seq<FlagsMemberV>, s: Seq<char>) -> Result<u32, Seq<char>> {
    if s.len() == 0 {
        Ok(0u32)
    } else {
        spec_parse_tokens(ms, s)
    }
}

/// The first bar position is within bounds and everything before it is
/// not a bar.
pub proof fn lemma_bar_pos(s: Seq<char>, from: int)
    requires
        0 <= from <= s.len(),
    ensures
        from <= spec_bar_pos(s, from) <= s.len(),
        spec_bar_pos(s, from) < s.len() ==> s[spec_bar_pos(s, from)] == '|',
        forall|i: int| from <= i < spec_bar_pos(s, from) ==> s[i] != '|',
    decreases s.len() - from,
{
    if from < s.len() && s[from] != '|' {
        lemma_bar_pos(s, from + 1);
    }
}

/// The error returned when a token names no flag of a flags type; it
/// carries the offending token.
#[derive(Debug, PartialEq, Eq)]
pub struct ParseFlagsError {
    token: String,
}

impl View for ParseFlagsError {
    type V = Seq<char>;

    closed spec fn view(&self) -> Seq<char> {
        self.token@
    }
}

impl ParseFlagsError {
    /// The token that named no flag.
    pub fn token(&self) -> (t: &str)
        ensures
            t@ == self@,
    {
        self.token.as_str()
    }

    /// A short human-readable description.
    pub fn message(&self) -> (m: String)
        ensures
            m@ == "invalid flag value "@ + self@,
    {
        let mut m = String::from_str("invalid flag value ");
        m.append(self.token.as_str());
        m
    }
}

/// A flag set carried as its raw bit mask and encoded as a `|`-joined
/// nick list; its wire signature is `s`.
#[derive(Debug, PartialEq, Eq, Structural, Clone, Copy)]
pub struct FlagsValue {
    value: u32,
}

impl View for FlagsValue {
    type V = u32;

    closed spec fn view(&self) -> u32 {
        self.value
    }
}

impl FlagsClass {
    /// The index of the first member carrying this nick.
    pub fn member_by_nick(&self, nick: &str, at: usize) -> (r: Option<usize>)
        requires
            at <= self.members@.len(),
        ensures
            match r {
                Some(i) => at <= i < self.members@.len() && spec_flags_by_nick(
                    self@,
                    nick@,
                    at as int,
                ) == Some(i as int),
                None => spec_flags_by_nick(self@, nick@, at as int) is None,
            },
        decreases self.members@.len() - at,
    {
        if at == self.members.len() {
            return None;
        }
        let n = nick.to_owned();
        if self.members[at].nick.eq(&n) {
            Some(at)
        } else {
            self.member_by_nick(nick, at + 1)
        }
    }
}

impl FlagsValue {
    /// Wraps a raw bit mask.
    pub fn new(value: u32) -> (r: FlagsValue)
        ensures
            r@ == value,
    {
        FlagsValue { value }
    }

    /// The raw bit mask.
    pub fn value(&self) -> (v: u32)
        ensures
            v == self@,
    {
        self.value
    }

    /// Renders the flag set as the `|`-joined nicks of its set bits, in
    /// registry order; the zero value renders as the empty string.
    #[verifier::loop_isolation(false)]
    pub fn to_string_value(&self, class: &FlagsClass) -> (r: String)
        ensures
            r@ == spec_flags_text(class@, 0, self@, true),
    {
        let mut out = String::new();
        let mut rem: u32 = self.value;
        let mut first: bool = true;
        let mut j: usize = 0;
        while j < class.members.len()
            invariant
                0 <= j <= class.members@.len(),
                out@ + spec_flags_text(class@, j as int, rem, first) == spec_flags_text(
                    class@,
                    0,
                    self@,
                    true,
                ),
            decreases class.members@.len() - j,
        {
            let m = &class.members[j];
            if (rem & m.bits) == m.bits {
                rem = rem & !m.bits;
                if !first {
                    push_char(&mut out, '|');
                }
                out.append(m.nick.as_str());
                proof {
                    assert(class@[j as int].nick == m.nick@);
                    assert(out@ + spec_flags_text(class@, j as int + 1, rem, false)
                        =~= spec_flags_text(class@, 0, self@, true));
                }
                first = false;
            }
            j += 1;
        }
        proof {
            assert(spec_flags_text(class@, class@.len() as int, rem, first) =~= Seq::<
                char,
            >::empty());
            assert(out@ =~= spec_flags_text(class@, 0, self@, true));
        }
        out
    }

    /// Encodes the flag set as its rendered nick list.
    pub fn to_variant(&self, class: &FlagsClass) -> (r: Variant)
        ensures
            r@ == VariantV::Str(spec_flags_text(class@, 0, self@, true)),
    {
        Variant::Str(self.to_string_value(class))
    }

    /// Parses a `|`-joined nick list back into a bit mask; an unknown
    /// token is returned in the error, and the empty string is the zero
    /// value.
    #[verifier::loop_isolation(false)]
    pub fn from_str(class: &FlagsClass, s: &str) -> (r: Result<FlagsValue, ParseFlagsError>)
        ensures
            match r {
                Ok(fv) => spec_parse_flags(class@, s@) == Ok::<u32, Seq<char>>(fv@),
                Err(e) => spec_parse_flags(class@, s@) == Err::<u32, Seq<char>>(e@),
            },
    {
        let n = s.unicode_len();
        if n == 0 {
            return Ok(FlagsValue { value: 0 });
        }
        let mut start: usize = 0;
        let mut value: u32 = 0;
        proof {
            assert(s@.subrange(0, n as int) =~= s@);
            let r0 = spec_parse_tokens(class@, s@);
            if r0 is Ok {
                let b = r0->Ok_0;
                assert(0u32 | b == b) by (bit_vector);
            }
        }
        loop
            invariant
                0 <= start <= n,
                n == s@.len(),
                match spec_parse_tokens(class@, s@.subrange(start as int, n as int)) {
                    Ok(b) => spec_parse_flags(class@, s@) == Ok::<u32, Seq<char>>(value | b),
                    Err(e) => spec_parse_flags(class@, s@) == Err::<u32, Seq<char>>(e),
                },
            decreases n - start,
        {
            let ghost sub = s@.subrange(start as int, n as int);
            // find the next separator
            let mut p: usize = start;
            while p < n && s.get_char(p) != '|'
                invariant
                    start <= p <= n,
                    forall|i: int| start <= i < p ==> s@[i] != '|',
                decreases n - p,
            {
                p += 1;
            }
            proof {
                lemma_bar_pos(sub, 0);
                assert(forall|i: int| 0 <= i < sub.len() ==> sub[i] == s@[start + i]);
                if p < n {
                    assert(sub[p - start] == '|');
                }
                assert(spec_bar_pos(sub, 0) == p - start) by {
                    lemma_bar_pos_exact(sub, 0, p - start);
                }
            }
            let tok = s.substring_char(start, p);
            proof {
                assert(tok@ =~= sub.subrange(0, p - start));
            }
            match class.member_by_nick(tok, 0) {
                None => {
                    return Err(ParseFlagsError { token: tok.to_owned() });
                },
                Some(i) => {
                    let bits = class.members[i].bits;
                    if p == n {
                        proof {
                            assert(spec_parse_tokens(class@, sub) == Ok::<u32, Seq<char>>(bits));
                        }
                        return Ok(FlagsValue { value: value | bits });
                    }
                    proof {
                        assert(sub.subrange(p - start + 1, sub.len() as int) =~= s@.subrange(
                            p as int + 1,
                            n as int,
                        ));
                        let rest = spec_parse_tokens(class@, s@.subrange(p as int + 1, n as int));
                        if rest is Ok {
                            let b2 = rest->Ok_0;
                            let v0 = value;
                            let b1 = bits;
                            assert((v0 | b1) | b2 == v0 | (b1 | b2)) by (bit_vector);
                        }
                    }
                    value = value | bits;
                    start = p + 1;
                },
            }
        }
    }

    /// Decodes a string-like wire value by parsing its nick list.
    pub fn from_variant(class: &FlagsClass, w: &Variant) -> (r: Option<FlagsValue>)
        ensures
            match r {
                Some(fv) => {
                    &&& crate::deserializer::wire_str(w@) is Some
                    &&& spec_parse_flags(class@, crate::deserializer::wire_str(w@)->Some_0)
                        == Ok::<u32, Seq<char>>(fv@)
                },
                None => crate::deserializer::wire_str(w@) is None || spec_parse_flags(
                    class@,
                    crate::deserializer::wire_str(w@)->Some_0,
                ) is Err,
            },
    {
        match crate::deserializer::wire_str_of(w) {
            Some(t) => {
                match Self::from_str(class, t.as_str()) {
                    Ok(fv) => Some(fv),
                    Err(_) => None,
                }
            },
            None => None,
        }
    }
}

/// When no bar occurs before `p` and `p` is a bar or the end, the first
/// bar position is exactly `p`.
pub proof fn lemma_bar_pos_exact(s: Seq<char>, from: int, p: int)
    requires
        0 <= from <= p <= s.len(),
        forall|i: int| from <= i < p ==> s[i] != '|',
        p < s.len() ==> s[p] == '|',
    ensures
        spec_bar_pos(s, from) == p,
    decreases p - from,
{
    if from < p {
        lemma_bar_pos_exact(s, from + 1, p);
    }
}

/// A flag set encoded as its raw bit mask; its wire signature is `u`.
#[derive(Debug, PartialEq, Eq, Structural, Clone, Copy)]
pub struct FlagsReprValue {
    value: u32,
}

impl View for FlagsReprValue {
    type V = u32;

    closed spec fn view(&self) -> u32 {
        self.value
    }
}

impl FlagsReprValue {
    /// Wraps a raw bit mask.
    pub fn new(value: u32) -> (r: FlagsReprValue)
        ensures
            r@ == value,
    {
        FlagsReprValue { value }
    }

    /// The raw bit mask.
    pub fn value(&self) -> (v: u32)
        ensures
            v == self@,
    {
        self.value
    }

    /// Encodes the mask as a 32-bit unsigned wire value.
    pub fn to_variant(&self) -> (r: Variant)
        ensures
            r@ == VariantV::Uint32(self@),
    {
        Variant::Uint32(self.value)
    }

    /// Decodes a 32-bit unsigned wire value as a mask.
    pub fn from_variant(w: &Variant) -> (r: Option<FlagsReprValue>)
        ensures
            match r {
                Some(fv) => w@ is Uint32 && fv@ == w@->Uint32_0,
                None => !(w@ is Uint32),
            },
    {
        proof {
            crate::deserializer::lemma_var_ctor(*w);
        }
        match w {
            Variant::Uint32(x) => Some(FlagsReprValue { value: *x }),
            _ => None,
        }
    }
}

} // verus!
