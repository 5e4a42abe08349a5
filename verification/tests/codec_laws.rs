use glib_serde::deserializer::from_variant;
use glib_serde::error::Error;
use glib_serde::object_path::{path_is_valid, ObjectPath};
use glib_serde::serializer::{encode_fixed, encode_list, to_variant};
use glib_serde::shape::{shape_ty, variant_type, EnumShape, PayloadShape, Shape, VariantShape};
use glib_serde::signature::{signature_is_valid, Signature};
use glib_serde::text::to_text;
use glib_serde::ty::VariantTy;
use glib_serde::value::{PayloadValue, Value};
use glib_serde::variant::Variant;
use glib_serde::variant_type::{child_type_or_default, ReprWidth, TagMode, VariantTypeNode};

#[test]
fn round_trip_simple_struct() {
    let shape = Shape::Tup(vec![Shape::I32, Shape::Str]);
    let value = Value::Tup(vec![Value::I32(1), Value::Str(String::from("Item"))]);
    let w = to_variant(&value, &shape).unwrap();
    assert_eq!(w.type_string(), "(is)");
    assert_eq!(to_text(&w).unwrap(), "(1, 'Item')");
    let back = from_variant(&w, &shape).unwrap();
    assert_eq!(back, value);
}

#[test]
fn unit_enum_by_name() {
    let shape = Shape::Enum(EnumShape {
        tag: TagMode::Name,
        variants: vec![
            VariantShape { name: String::from("north"), disc: 1, payload: PayloadShape::Unit },
            VariantShape { name: String::from("east"), disc: 2, payload: PayloadShape::Unit },
            VariantShape { name: String::from("south"), disc: 3, payload: PayloadShape::Unit },
            VariantShape { name: String::from("west"), disc: 4, payload: PayloadShape::Unit },
        ],
    });
    assert_eq!(shape_ty(&shape).type_string(), "s");

    let value = Value::EnumVal { index: 2, payload: PayloadValue::Unit };
    let w = to_variant(&value, &shape).unwrap();
    assert_eq!(w.type_string(), "s");
    assert_eq!(to_text(&w).unwrap(), "'south'");
    let back = from_variant(&w, &shape).unwrap();
    assert_eq!(back, value);
}

#[test]
fn tag_width_table() {
    let widths = [
        (ReprWidth::Signed8, "n"),
        (ReprWidth::Signed16, "n"),
        (ReprWidth::Signed32, "i"),
        (ReprWidth::Signed64, "x"),
        (ReprWidth::Unsigned8, "y"),
        (ReprWidth::Unsigned16, "q"),
        (ReprWidth::Unsigned32, "u"),
        (ReprWidth::Unsigned64, "t"),
    ];
    for (w, expected) in widths {
        let shape = Shape::Enum(EnumShape {
            tag: TagMode::Repr(w),
            variants: vec![
                VariantShape { name: String::from("lo"), disc: 1, payload: PayloadShape::Unit },
                VariantShape { name: String::from("hi"), disc: 2, payload: PayloadShape::Unit },
            ],
        });
        assert_eq!(shape_ty(&shape).type_string(), expected);
        let wire = to_variant(
            &Value::EnumVal { index: 1, payload: PayloadValue::Unit },
            &shape,
        )
            .unwrap();
        assert_eq!(wire.type_string(), expected);
        let back = from_variant(&wire, &shape).unwrap();
        assert_eq!(back, Value::EnumVal { index: 1, payload: PayloadValue::Unit });
    }
}

#[test]
fn fast_path_equals_generic_path() {
    let items = vec![Value::U32(1), Value::U32(2), Value::U32(3)];
    let fast = encode_fixed(&items, &VariantTy::Uint32, 0).unwrap();
    let node = VariantTypeNode::new(VariantTy::Uint32, Vec::new());
    let generic = encode_list(&items, &node, &VariantTy::Uint32, 0).unwrap();
    assert_eq!(fast, generic);

    let w = to_variant(&Value::List(items), &Shape::List(Box::new(Shape::U32))).unwrap();
    assert_eq!(w.type_string(), "au");
    assert_eq!(
        w,
        Variant::Array {
            elem: VariantTy::Uint32,
            items: vec![Variant::Uint32(1), Variant::Uint32(2), Variant::Uint32(3)],
        }
    );
}

#[test]
fn newtype_wrapper_is_transparent() {
    let inner = to_variant(&Value::I32(7), &Shape::I32).unwrap();
    let wrapped = to_variant(
        &Value::Newtype(Box::new(Value::I32(7))),
        &Shape::Newtype(Box::new(Shape::I32)),
    )
        .unwrap();
    assert_eq!(inner, wrapped);
}

#[test]
fn sparse_descriptor_falls_back_to_signature() {
    // a node with no declared children still yields its element type
    let node = VariantTypeNode::new(
        VariantTy::Array(Box::new(VariantTy::Entry(
            Box::new(VariantTy::Str),
            Box::new(VariantTy::Int32),
        ))),
        Vec::new(),
    );
    let key = child_type_or_default(&node, 0);
    assert!(key.type_().ty_eq(&VariantTy::Str));
    let val = child_type_or_default(&node, 1);
    assert!(val.type_().ty_eq(&VariantTy::Int32));

    let tuple_node = VariantTypeNode::new(
        VariantTy::Tuple(vec![VariantTy::Bool, VariantTy::Uint64]),
        Vec::new(),
    );
    let second = child_type_or_default(&tuple_node, 1);
    assert!(second.type_().ty_eq(&VariantTy::Uint64));

    let full = variant_type(&Shape::Opt(Box::new(Shape::Str)));
    let elem = child_type_or_default(&full, 0);
    assert!(elem.type_().ty_eq(&VariantTy::Str));
}

#[test]
fn maybe_carries_element_type_when_absent() {
    let w = to_variant(&Value::OptNone, &Shape::Opt(Box::new(Shape::U64))).unwrap();
    assert_eq!(w.type_string(), "mt");
    let back = from_variant(&w, &Shape::Opt(Box::new(Shape::U64))).unwrap();
    assert_eq!(back, Value::OptNone);
}

#[test]
fn bytes_round_trip() {
    let value = Value::Bytes(vec![1, 2, 255]);
    let w = to_variant(&value, &Shape::Bytes).unwrap();
    assert_eq!(w.type_string(), "ay");
    let back = from_variant(&w, &Shape::Bytes).unwrap();
    assert_eq!(back, value);
}

#[test]
fn string_policy_validates_targets() {
    // a string that is not a path cannot sit at a path target
    let err = to_variant(&Value::Path(String::from("not-a-path")), &Shape::Path)
        .unwrap_err();
    assert!(matches!(err, Error::ValidationFailure(_)));

    // the error message names the offending string
    assert!(err.message().contains("not-a-path"));

    let err = to_variant(&Value::Sig(String::from("(unclosed")), &Shape::Sig).unwrap_err();
    assert!(matches!(err, Error::ValidationFailure(_)));
}

#[test]
fn decode_errors_name_their_cause() {
    // wrong class for the requested shape
    let err = from_variant(&Variant::Str(String::from("x")), &Shape::Bool).unwrap_err();
    assert!(matches!(err, Error::TypeMismatch(_)));

    // a narrower integer target range-checks
    let err = from_variant(&Variant::Int64(300), &Shape::U8).unwrap_err();
    assert!(matches!(err, Error::IntegerOverflow));

    // but an in-range value converts across integer classes
    let v = from_variant(&Variant::Int64(250), &Shape::U8).unwrap();
    assert_eq!(v, Value::U8(250));

    // a tuple of the wrong arity
    let err = from_variant(
        &Variant::Tuple(vec![Variant::Int32(1)]),
        &Shape::Tup(vec![Shape::I32, Shape::I32]),
    )
        .unwrap_err();
    assert!(matches!(err, Error::LengthMismatch { .. }));

    // a character from a string of the wrong length
    let err = from_variant(&Variant::Str(String::from("ab")), &Shape::Char).unwrap_err();
    assert!(matches!(err, Error::ExpectedChar(_)));
    let v = from_variant(&Variant::Str(String::from("a")), &Shape::Char).unwrap();
    assert_eq!(v, Value::Char('a'));

    // an unrecognized enum tag
    let shape = Shape::Enum(EnumShape {
        tag: TagMode::Name,
        variants: vec![VariantShape {
            name: String::from("only"),
            disc: 0,
            payload: PayloadShape::Unit,
        }],
    });
    let err = from_variant(&Variant::Str(String::from("other")), &shape).unwrap_err();
    assert!(matches!(err, Error::InvalidTag(_)));

    // a decoded path string re-validates on receipt
    let err = from_variant(&Variant::Str(String::from("bad")), &Shape::Path).unwrap_err();
    assert!(matches!(err, Error::ValidationFailure(_)));
}

#[test]
fn encode_errors_name_their_cause() {
    // a sequence needs an array target
    let err = to_variant(&Value::List(vec![Value::I32(1)]), &Shape::Bool).unwrap_err();
    assert!(matches!(err, Error::UnsupportedType(_)));

    // an ordinal tag must fit its declared width
    let narrow = Shape::Enum(EnumShape {
        tag: TagMode::Repr(ReprWidth::Unsigned8),
        variants: vec![
            VariantShape { name: String::from("big"), disc: 300, payload: PayloadShape::Unit },
        ],
    });
    let err = to_variant(
        &Value::EnumVal { index: 0, payload: PayloadValue::Unit },
        &narrow,
    )
        .unwrap_err();
    assert!(matches!(err, Error::IntegerOverflow));
}

#[test]
fn signature_strings_validate() {
    assert!(signature_is_valid("a{sv}"));
    assert!(signature_is_valid("(asgva(in)a{sb})"));
    assert!(signature_is_valid("i"));
    assert!(!signature_is_valid(""));
    assert!(!signature_is_valid("a"));
    assert!(!signature_is_valid("(i"));
    assert!(!signature_is_valid("a{vs}"));
    assert!(!signature_is_valid("ii"));

    let s = Signature::new("a(is)").unwrap();
    assert_eq!(s.as_str(), "a(is)");
    assert!(Signature::new("{si").is_err());
}

#[test]
fn object_paths_validate() {
    assert!(path_is_valid("/"));
    assert!(path_is_valid("/com/org/Test"));
    assert!(path_is_valid("/org/glib_serde/test"));
    assert!(!path_is_valid(""));
    assert!(!path_is_valid("relative"));
    assert!(!path_is_valid("/a//b"));
    assert!(!path_is_valid("/a/"));
    assert!(!path_is_valid("/a b"));

    let p = ObjectPath::new("/com/org/Test").unwrap();
    assert_eq!(p.as_str(), "/com/org/Test");
    assert!(ObjectPath::new("nope").is_err());
}

#[test]
fn error_messages_render() {
    let err = from_variant(&Variant::Str(String::from("x")), &Shape::Bool).unwrap_err();
    assert_eq!(err.message(), "type mismatch: s");

    let err = to_variant(&Value::List(vec![]), &Shape::Bool).unwrap_err();
    assert_eq!(err.message(), "type not supported: b");
}

#[test]
fn wire_type_depends_on_shape_alone() {
    let shape = Shape::Tup(vec![Shape::I32, Shape::Str]);
    let w1 = to_variant(
        &Value::Tup(vec![Value::I32(0), Value::Str(String::new())]),
        &shape,
    )
        .unwrap();
    let w2 = to_variant(
        &Value::Tup(vec![Value::I32(-77), Value::Str(String::from("other text"))]),
        &shape,
    )
        .unwrap();
    assert_eq!(w1.type_string(), w2.type_string());
    assert_eq!(w1.type_string(), shape_ty(&shape).type_string());
}

#[test]
fn deep_nesting_round_trips() {
    let shape = Shape::MapOf(
        Box::new(Shape::Str),
        Box::new(Shape::List(Box::new(Shape::Opt(Box::new(Shape::I64))))),
    );
    let value = Value::MapOf(vec![
        (
            Value::Str(String::from("a")),
            Value::List(vec![
                Value::OptSome(Box::new(Value::I64(-1))),
                Value::OptNone,
            ]),
        ),
        (Value::Str(String::from("b")), Value::List(vec![])),
    ]);
    let w = to_variant(&value, &shape).unwrap();
    assert_eq!(w.type_string(), "a{samx}");
    let back = from_variant(&w, &shape).unwrap();
    assert_eq!(back, value);
}
