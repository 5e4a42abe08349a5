//! Enum values resolved through a registry of named members.
//!
//! An [`EnumClass`] models the registry for one enumeration: each member
//! has a numeric value, a display name, and a short nick.  An
//! [`EnumValue`] encodes as its member's nick string; an
//! [`EnumReprValue`] encodes as the raw numeric value.

use crate::error::{Error, ErrorV};
use crate::variant::{Variant, VariantV};
use vstd::prelude::*;
use vstd::string::*;

verus! {

/// One registered member of an enumeration.
#[derive(Debug, PartialEq, Eq)]
pub struct EnumMember {
    pub value: i32,
    pub name: String,
    pub nick: String,
}

/// The mathematical model of an [`EnumMember`].
#[verifier::ext_equal]
pub struct EnumMemberV {
    pub value: i32,
    pub name: Seq<char>,
    pub nick: Seq<char>,
}

impl View for EnumMember {
    type V = EnumMemberV;

    open spec fn view(&self) -> EnumMemberV {
        EnumMemberV { value: self.value, name: self.name@, nick: self.nick@ }
    }
}

/// The registry for one enumeration: its members in declaration order.
#[derive(Debug, PartialEq, Eq)]
pub struct EnumClass {
    pub members: Vec<EnumMember>,
}

impl View for EnumClass {
    type V = Seq<EnumMemberV>;

    open spec fn view(&self) -> Seq<EnumMemberV> {
        Seq::new(self.members@.len(), |i: int| self.members@[i]@)
    }
}

/// The first member with the given nick, scanning from `at`.
pub open spec fn spec_member_by_nick(ms: Seq<EnumMemberV>, nick: Seq<char>, at: int) -> Option<
    int,
>
    decreases ms.len() - at,
{
    if at < 0 || at >= ms.len() {
        None
    } else if ms[at].nick == nick {
        Some(at)
    } else {
        spec_member_by_nick(ms, nick, at + 1)
    }
}

/// The first member with the given numeric value, scanning from `at`.
pub open spec fn spec_member_by_value(ms: Seq<EnumMemberV>, value: i32, at: int) -> Option<int>
    decreases ms.len() - at,
{
    if at < 0 || at >= ms.len() {
        None
    } else if ms[at].value == value {
        Some(at)
    } else {
        spec_member_by_value(ms, value, at + 1)
    }
}

impl EnumClass {
    /// The index of the first member carrying this nick.
    pub fn member_by_nick(&self, nick: &str, at: usize) -> (r: Option<usize>)
        requires
            at <= self.members@.len(),
        ensures
            match r {
                Some(i) => at <= i < self.members@.len() && spec_member_by_nick(
                    self@,
                    nick@,
                    at as int,
                ) == Some(i as int),
                None => spec_member_by_nick(self@, nick@, at as int) is None,
            },
        decreases self.members@.len() - at,
    {
        if at == self.members.len() {
            return None;
        }
        let n = nick.to_owned();
        if self.members[at].nick.eq(&n) {
            Some(at)
        } else {
            self.member_by_nick(nick, at + 1)
        }
    }

    /// The index of the first member carrying this numeric value.
    pub fn member_by_value(&self, value: i32, at: usize) -> (r: Option<usize>)
        requires
            at <= self.members@.len(),
        ensures
            match r {
                Some(i) => at <= i < self.members@.len() && spec_member_by_value(
                    self@,
                    value,
                    at as int,
                ) == Some(i as int),
                None => spec_member_by_value(self@, value, at as int) is None,
            },
        decreases self.members@.len() - at,
    {
        if at == self.members.len() {
            return None;
        }
        if self.members[at].value == value {
            Some(at)
        } else {
            self.member_by_value(value, at + 1)
        }
    }
}

/// The error returned when a string does not name any member of an
/// enumeration; it carries the offending token.
#[derive(Debug, PartialEq, Eq)]
pub struct ParseEnumError {
    token: String,
}

impl View for ParseEnumError {
    type V = Seq<char>;

    closed spec fn view(&self) -> Seq<char> {
        self.token@
    }
}

impl ParseEnumError {
    /// The token that named no member.
    pub fn token(&self) -> (t: &str)
        ensures
            t@ == self@,
    {
        self.token.as_str()
    }

    /// A short human-readable description.
    pub fn message(&self) -> (m: String)
        ensures
            m@ == "invalid enum value "@ + self@,
    {
        let mut m = String::from_str("invalid enum value ");
        m.append(self.token.as_str());
        m
    }
}

/// An enumeration value carried by its registered numeric value and
/// encoded by nick; its wire signature is `s`.
#[derive(Debug, PartialEq, Eq, Structural, Clone, Copy)]
pub struct EnumValue {
    value: i32,
}

impl View for EnumValue {
    type V = i32;

    closed spec fn view(&self) -> i32 {
        self.value
    }
}

impl EnumValue {
    /// Wraps a raw registered value.
    pub fn new(value: i32) -> (r: EnumValue)
        ensures
            r@ == value,
    {
        EnumValue { value }
    }

    /// The raw numeric value.
    pub fn value(&self) -> (v: i32)
        ensures
            v == self@,
    {
        self.value
    }

    /// The nick this value encodes as, looked up in the registry.
    pub fn nick_of<'a>(&self, class: &'a EnumClass) -> (r: Option<&'a String>)
        ensures
            match r {
                Some(n) => {
                    &&& spec_member_by_value(class@, self@, 0) is Some
                    &&& n@ == class@[spec_member_by_value(class@, self@, 0)->Some_0].nick
                },
                None => spec_member_by_value(class@, self@, 0) is None,
            },
    {
        match class.member_by_value(self.value, 0) {
            Some(i) => Some(&class.members[i].nick),
            None => None,
        }
    }

    /// Encodes the value as its nick string; a value the registry does
    /// not know cannot be encoded.
    pub fn to_variant(&self, class: &EnumClass) -> (r: Result<Variant, Error>)
        ensures
            match r {
                Ok(w) => {
                    &&& spec_member_by_value(class@, self@, 0) is Some
                    &&& w@ == VariantV::Str(
                        class@[spec_member_by_value(class@, self@, 0)->Some_0].nick,
                    )
                },
                Err(e) => spec_member_by_value(class@, self@, 0) is None && e@ == ErrorV::Custom(
                    "invalid value for this enum class"@,
                ),
            },
    {
        match self.nick_of(class) {
            Some(n) => Ok(Variant::Str(n.clone())),
            None => Err(Error::Custom(String::from_str("invalid value for this enum class"))),
        }
    }

    /// Decodes a string-like wire value back through the registry.
    pub fn from_variant(class: &EnumClass, w: &Variant) -> (r: Option<EnumValue>)
        ensures
            match r {
                Some(ev) => {
                    &&& crate::deserializer::wire_str(w@) is Some
                    &&& spec_member_by_nick(
                        class@,
                        crate::deserializer::wire_str(w@)->Some_0,
                        0,
                    ) is Some
                    &&& ev@ == class@[spec_member_by_nick(
                        class@,
                        crate::deserializer::wire_str(w@)->Some_0,
                        0,
                    )->Some_0].value
                },
                None => crate::deserializer::wire_str(w@) is None || spec_member_by_nick(
                    class@,
                    crate::deserializer::wire_str(w@)->Some_0,
                    0,
                ) is None,
            },
    {
        match crate::deserializer::wire_str_of(w) {
            Some(t) => {
                match class.member_by_nick(t.as_str(), 0) {
                    Some(i) => Some(EnumValue { value: class.members[i].value }),
                    None => None,
                }
            },
            None => None,
        }
    }

    /// Parses a nick into the value it registers; an unknown nick is
    /// returned in the error.
    pub fn from_str(class: &EnumClass, s: &str) -> (r: Result<EnumValue, ParseEnumError>)
        ensures
            match r {
                Ok(ev) => {
                    &&& spec_member_by_nick(class@, s@, 0) is Some
                    &&& ev@ == class@[spec_member_by_nick(class@, s@, 0)->Some_0].value
                },
                Err(e) => spec_member_by_nick(class@, s@, 0) is None && e@ == s@,
            },
    {
        match class.member_by_nick(s, 0) {
            Some(i) => Ok(EnumValue { value: class.members[i].value }),
            None => Err(ParseEnumError { token: s.to_owned() }),
        }
    }
}

/// An enumeration value encoded as its raw numeric value; its wire
/// signature is `i`.
#[derive(Debug, PartialEq, Eq, Structural, Clone, Copy)]
pub struct EnumReprValue {
    value: i32,
}

impl View for EnumReprValue {
    type V = i32;

    closed spec fn view(&self) -> i32 {
        self.value
    }
}

impl EnumReprValue {
    /// Wraps a raw registered value.
    pub fn new(value: i32) -> (r: EnumReprValue)
        ensures
            r@ == value,
    {
        EnumReprValue { value }
    }

    /// The raw numeric value.
    pub fn value(&self) -> (v: i32)
        ensures
            v == self@,
    {
        self.value
    }

    /// Encodes the registered value as a 32-bit signed wire value; a
    /// value the registry does not know cannot be encoded.
    pub fn to_variant(&self, class: &EnumClass) -> (r: Result<Variant, Error>)
        ensures
            match r {
                Ok(w) => spec_member_by_value(class@, self@, 0) is Some && w@ == VariantV::Int32(
                    self@,
                ),
                Err(e) => spec_member_by_value(class@, self@, 0) is None && e@ == ErrorV::Custom(
                    "invalid value for this enum class"@,
                ),
            },
    {
        match class.member_by_value(self.value, 0) {
            Some(_) => Ok(Variant::Int32(self.value)),
            None => Err(Error::Custom(String::from_str("invalid value for this enum class"))),
        }
    }

    /// Decodes a 32-bit signed wire value back through the registry.
    pub fn from_variant(class: &EnumClass, w: &Variant) -> (r: Option<EnumReprValue>)
        ensures
            match r {
                Some(ev) => w@ is Int32 && spec_member_by_value(class@, w@->Int32_0, 0) is Some
                    && ev@ == w@->Int32_0,
                None => !(w@ is Int32) || spec_member_by_value(class@, w@->Int32_0, 0) is None,
            },
    {
        proof {
            crate::deserializer::lemma_var_ctor(*w);
        }
        match w {
            Variant::Int32(x) => {
                match class.member_by_value(*x, 0) {
                    Some(_) => Some(EnumReprValue { value: *x }),
                    None => None,
                }
            },
            _ => None,
        }
    }
}

} // verus!
