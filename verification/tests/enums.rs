use glib_serde::enums::{EnumClass, EnumMember, EnumReprValue, EnumValue};
use glib_serde::flags::{FlagsClass, FlagsMember, FlagsReprValue, FlagsValue};
use glib_serde::variant::Variant;

fn my_enum_class() -> EnumClass {
    EnumClass {
        members: vec![
            EnumMember { value: 0, name: String::from("Val"), nick: String::from("val") },
            EnumMember {
                value: 1,
                name: String::from("My Val"),
                nick: String::from("val-with-custom-name"),
            },
            EnumMember {
                value: 2,
                name: String::from("My Other Val"),
                nick: String::from("other"),
            },
        ],
    }
}

fn my_flags_class() -> FlagsClass {
    FlagsClass {
        members: vec![
            FlagsMember { bits: 0b00000001, name: String::from("Flag A"), nick: String::from("nick-a") },
            FlagsMember { bits: 0b00000010, name: String::from("Flag B"), nick: String::from("b") },
            FlagsMember { bits: 0b00000100, name: String::from("C"), nick: String::from("c") },
        ],
    }
}

#[test]
fn enums_serialize_enum() {
    let class = my_enum_class();
    let v = EnumValue::new(1).to_variant(&class).unwrap();
    assert_eq!(v, Variant::Str(String::from("val-with-custom-name")));

    let v = EnumValue::new(2).to_variant(&class).unwrap();
    assert_eq!(v, Variant::Str(String::from("other")));
}

#[test]
fn deserialize_enum() {
    let class = my_enum_class();
    let e = EnumValue::from_str(&class, "val-with-custom-name").unwrap();
    assert_eq!(e.value(), 1);

    let e = EnumValue::from_str(&class, "other").unwrap();
    assert_eq!(e.value(), 2);

    let err = EnumValue::from_str(&class, "nothing").unwrap_err();
    assert_eq!(err.token(), "nothing");
    assert!(err.message().contains("invalid enum value"));
}

#[test]
fn serialize_flags() {
    let class = my_flags_class();
    assert_eq!(FlagsValue::new(0).to_string_value(&class), "");
    assert_eq!(FlagsValue::new(0b001).to_string_value(&class), "nick-a");
    assert_eq!(FlagsValue::new(0b010).to_string_value(&class), "b");
    assert_eq!(FlagsValue::new(0b110).to_string_value(&class), "b|c");
    assert_eq!(FlagsValue::new(0b011).to_string_value(&class), "nick-a|b");
    assert_eq!(FlagsValue::new(0b111).to_string_value(&class), "nick-a|b|c");
}

#[test]
fn deserialize_flags() {
    let class = my_flags_class();
    assert_eq!(FlagsValue::from_str(&class, "").unwrap().value(), 0);
    assert_eq!(FlagsValue::from_str(&class, "nick-a").unwrap().value(), 0b001);
    assert_eq!(FlagsValue::from_str(&class, "nick-a|b").unwrap().value(), 0b011);

    let err = FlagsValue::from_str(&class, "nick-a|b|bad|c").unwrap_err();
    assert_eq!(err.token(), "bad");
    assert!(err.message().contains("invalid flag value"));
}

#[test]
fn serialize_repr() {
    let class = my_enum_class();
    let v = EnumReprValue::new(1).to_variant(&class).unwrap();
    assert_eq!(v, Variant::Int32(1));

    let v = FlagsReprValue::new(0).to_variant();
    assert_eq!(v, Variant::Uint32(0));

    let v = FlagsReprValue::new(3).to_variant();
    assert_eq!(v, Variant::Uint32(3));
}

#[test]
fn deserialize_repr() {
    let class = my_enum_class();
    let e = EnumReprValue::from_variant(&class, &Variant::Int32(2)).unwrap();
    assert_eq!(e.value(), 2);

    let f = FlagsReprValue::from_variant(&Variant::Uint32(0)).unwrap();
    assert_eq!(f.value(), 0);

    let f = FlagsReprValue::from_variant(&Variant::Uint32(1)).unwrap();
    assert_eq!(f.value(), 1);

    let f = FlagsReprValue::from_variant(&Variant::Uint32(3)).unwrap();
    assert_eq!(f.value(), 3);
}

#[test]
fn enum_round_trip_through_wire() {
    let class = my_enum_class();
    let v = EnumValue::new(2).to_variant(&class).unwrap();
    let back = EnumValue::from_variant(&class, &v).unwrap();
    assert_eq!(back.value(), 2);

    let v = FlagsValue::new(0b011).to_variant(&my_flags_class());
    let back = FlagsValue::from_variant(&my_flags_class(), &v).unwrap();
    assert_eq!(back.value(), 0b011);
}

#[test]
fn unknown_enum_value_cannot_encode() {
    let class = my_enum_class();
    let err = EnumValue::new(99).to_variant(&class).unwrap_err();
    assert!(err.message().contains("invalid value for this enum class"));
}
