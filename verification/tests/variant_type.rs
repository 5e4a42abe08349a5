use glib_serde::deserializer::from_variant;
use glib_serde::serializer::to_variant;
use glib_serde::shape::{shape_ty, EnumShape, PayloadShape, Shape, VariantShape};
use glib_serde::text::to_text;
use glib_serde::value::{PayloadValue, Value};
use glib_serde::variant::Variant;
use glib_serde::variant_type::{ReprWidth, TagMode};

fn my_enum_shape() -> Shape {
    Shape::Enum(EnumShape {
        tag: TagMode::Name,
        variants: vec![
            VariantShape {
                name: String::from("UnitVariant"),
                disc: 0,
                payload: PayloadShape::Unit,
            },
            VariantShape {
                name: String::from("NewtypeVariant"),
                disc: 1,
                payload: PayloadShape::Newtype(Box::new(Shape::U16)),
            },
            VariantShape {
                name: String::from("TupleVariant"),
                disc: 2,
                payload: PayloadShape::Fields(vec![Shape::U8, Shape::Str]),
            },
            VariantShape {
                name: String::from("StructVariant"),
                disc: 3,
                payload: PayloadShape::Fields(vec![
                    Shape::List(Box::new(Shape::I16)),
                    Shape::MapOf(Box::new(Shape::I64), Box::new(Shape::Str)),
                ]),
            },
        ],
    })
}

fn my_tuple_struct_shape() -> Shape {
    Shape::Tup(vec![Shape::U64, Shape::Str, Shape::Opt(Box::new(Shape::Str))])
}

fn my_struct_shape() -> Shape {
    Shape::Tup(vec![
        Shape::U32,
        Shape::F64,
        my_tuple_struct_shape(),
        my_enum_shape(),
        Shape::Opt(Box::new(my_enum_shape())),
    ])
}

fn boxed_payload_type(w: &Variant) -> String {
    match w {
        Variant::Tuple(items) => match &items[1] {
            Variant::Boxed(inner) => inner.type_string(),
            _ => panic!("expected a boxed payload"),
        },
        _ => panic!("expected a tag and payload pair"),
    }
}

#[test]
fn variant_type_serialize_enum() {
    let shape = my_enum_shape();
    assert_eq!(shape_ty(&shape).type_string(), "(sv)");

    let w = to_variant(
        &Value::EnumVal { index: 0, payload: PayloadValue::Unit },
        &shape,
    )
        .unwrap();
    assert_eq!(w.type_string(), "(sv)");
    assert_eq!(boxed_payload_type(&w), "()");
    assert_eq!(to_text(&w).unwrap(), "('UnitVariant', <()>)");

    let w = to_variant(
        &Value::EnumVal {
            index: 1,
            payload: PayloadValue::Newtype(Box::new(Value::U16(54))),
        },
        &shape,
    )
        .unwrap();
    assert_eq!(w.type_string(), "(sv)");
    assert_eq!(boxed_payload_type(&w), "q");
    assert_eq!(to_text(&w).unwrap(), "('NewtypeVariant', <uint16 54>)");

    let w = to_variant(
        &Value::EnumVal {
            index: 2,
            payload: PayloadValue::Fields(vec![
                Value::U8(8),
                Value::Str(String::from("Eight")),
            ]),
        },
        &shape,
    )
        .unwrap();
    assert_eq!(w.type_string(), "(sv)");
    assert_eq!(boxed_payload_type(&w), "(ys)");
    assert_eq!(to_text(&w).unwrap(), "('TupleVariant', <(byte 0x08, 'Eight')>)");

    let w = to_variant(
        &Value::EnumVal {
            index: 3,
            payload: PayloadValue::Fields(vec![
                Value::List(vec![Value::I16(3), Value::I16(2), Value::I16(1)]),
                Value::MapOf(vec![(Value::I64(0), Value::Str(String::from("Zero")))]),
            ]),
        },
        &shape,
    )
        .unwrap();
    assert_eq!(w.type_string(), "(sv)");
    assert_eq!(boxed_payload_type(&w), "(ana{xs})");
    assert_eq!(
        to_text(&w).unwrap(),
        "('StructVariant', <([int16 3, 2, 1], {int64 0: 'Zero'})>)"
    );
}

#[test]
fn serialize_structs() {
    assert_eq!(
        shape_ty(&Shape::Newtype(Box::new(Shape::I32))).type_string(),
        "i"
    );
    assert_eq!(shape_ty(&my_tuple_struct_shape()).type_string(), "(tsms)");
    assert_eq!(shape_ty(&my_struct_shape()).type_string(), "(ud(tsms)(sv)m(sv))");

    let w = to_variant(
        &Value::Newtype(Box::new(Value::I32(52))),
        &Shape::Newtype(Box::new(Shape::I32)),
    )
        .unwrap();
    assert_eq!(w.type_string(), "i");
    assert_eq!(to_text(&w).unwrap(), "52");

    let w = to_variant(
        &Value::Tup(vec![
            Value::U64(3),
            Value::Str(String::from("hello")),
            Value::OptSome(Box::new(Value::Str(String::from("world")))),
        ]),
        &my_tuple_struct_shape(),
    )
        .unwrap();
    assert_eq!(w.type_string(), "(tsms)");
    assert_eq!(to_text(&w).unwrap(), "(3, 'hello', 'world')");

    // the full struct carries a double, whose text form is outside this
    // crate; its signature and round trip are checked instead
    let big = Value::Tup(vec![
        Value::U32(3050),
        Value::F64((-182.5f64).to_bits()),
        Value::Tup(vec![
            Value::U64(99),
            Value::Str(String::from("Foo")),
            Value::OptNone,
        ]),
        Value::EnumVal {
            index: 3,
            payload: PayloadValue::Fields(vec![
                Value::List(vec![Value::I16(7), Value::I16(6), Value::I16(5)]),
                Value::MapOf(vec![(
                    Value::I64(-100),
                    Value::Str(String::from("Goodbye")),
                )]),
            ]),
        },
        Value::OptSome(Box::new(Value::EnumVal { index: 0, payload: PayloadValue::Unit })),
    ]);
    let w = to_variant(&big, &my_struct_shape()).unwrap();
    assert_eq!(w.type_string(), "(ud(tsms)(sv)m(sv))");
    let back = from_variant(&w, &my_struct_shape()).unwrap();
    assert_eq!(back, big);

    // the wrapper struct mixes registry values, validated strings, an
    // embedded wire value and a dictionary of boxed values
    let wrapper_shape = Shape::Tup(vec![
        Shape::Str,
        Shape::I32,
        Shape::Str,
        Shape::U32,
        Shape::Path,
        Shape::Sig,
        Shape::Wire,
        Shape::MapOf(Box::new(Shape::Str), Box::new(Shape::Wire)),
    ]);
    assert_eq!(shape_ty(&wrapper_shape).type_string(), "(sisuogva{sv})");

    let wrapper = Value::Tup(vec![
        Value::Str(String::from("special")),
        Value::I32(4),
        Value::Str(String::from("in")),
        Value::U32(1),
        Value::Path(String::from("/org/glib_serde/test")),
        Value::Sig(String::from("i")),
        Value::Wire(Variant::Tuple(vec![Variant::Int32(0), Variant::Int32(1)])),
        Value::MapOf(vec![(
            Value::Str(String::from("hello")),
            Value::Wire(Variant::Str(String::from("world"))),
        )]),
    ]);
    let w = to_variant(&wrapper, &wrapper_shape).unwrap();
    assert_eq!(w.type_string(), "(sisuogva{sv})");
    assert_eq!(
        to_text(&w).unwrap(),
        "('special', 4, 'in', 1, '/org/glib_serde/test', 'i', <(0, 1)>, {'hello': <'world'>})"
    );
}

#[test]
fn deserialize_enums() {
    let shape = my_enum_shape();

    let w = Variant::Tuple(vec![
        Variant::Str(String::from("UnitVariant")),
        Variant::Boxed(Box::new(Variant::Tuple(vec![]))),
    ]);
    let v = from_variant(&w, &shape).unwrap();
    assert_eq!(v, Value::EnumVal { index: 0, payload: PayloadValue::Unit });

    let w = Variant::Tuple(vec![
        Variant::Str(String::from("NewtypeVariant")),
        Variant::Boxed(Box::new(Variant::Uint16(54))),
    ]);
    let v = from_variant(&w, &shape).unwrap();
    assert_eq!(
        v,
        Value::EnumVal {
            index: 1,
            payload: PayloadValue::Newtype(Box::new(Value::U16(54))),
        }
    );

    let w = Variant::Tuple(vec![
        Variant::Str(String::from("TupleVariant")),
        Variant::Boxed(Box::new(Variant::Tuple(vec![
            Variant::Byte(8),
            Variant::Str(String::from("Eight")),
        ]))),
    ]);
    let v = from_variant(&w, &shape).unwrap();
    assert_eq!(
        v,
        Value::EnumVal {
            index: 2,
            payload: PayloadValue::Fields(vec![
                Value::U8(8),
                Value::Str(String::from("Eight")),
            ]),
        }
    );

    let w = Variant::Tuple(vec![
        Variant::Str(String::from("StructVariant")),
        Variant::Boxed(Box::new(Variant::Tuple(vec![
            Variant::Array {
                elem: glib_serde::ty::VariantTy::Int16,
                items: vec![Variant::Int16(3), Variant::Int16(2), Variant::Int16(1)],
            },
            Variant::Array {
                elem: glib_serde::ty::VariantTy::Entry(
                    Box::new(glib_serde::ty::VariantTy::Int64),
                    Box::new(glib_serde::ty::VariantTy::Str),
                ),
                items: vec![Variant::Entry(
                    Box::new(Variant::Int64(0)),
                    Box::new(Variant::Str(String::from("Zero"))),
                )],
            },
        ]))),
    ]);
    let v = from_variant(&w, &shape).unwrap();
    assert_eq!(
        v,
        Value::EnumVal {
            index: 3,
            payload: PayloadValue::Fields(vec![
                Value::List(vec![Value::I16(3), Value::I16(2), Value::I16(1)]),
                Value::MapOf(vec![(Value::I64(0), Value::Str(String::from("Zero")))]),
            ]),
        }
    );
}

#[test]
fn deserialize_structs() {
    let v = from_variant(&Variant::Int32(52), &Shape::Newtype(Box::new(Shape::I32)))
        .unwrap();
    assert_eq!(v, Value::Newtype(Box::new(Value::I32(52))));

    let w = Variant::Tuple(vec![
        Variant::Uint64(3),
        Variant::Str(String::from("hello")),
        Variant::Maybe {
            elem: glib_serde::ty::VariantTy::Str,
            inner: Some(Box::new(Variant::Str(String::from("world")))),
        },
    ]);
    let v = from_variant(&w, &my_tuple_struct_shape()).unwrap();
    assert_eq!(
        v,
        Value::Tup(vec![
            Value::U64(3),
            Value::Str(String::from("hello")),
            Value::OptSome(Box::new(Value::Str(String::from("world")))),
        ])
    );

    // a decoded signature string re-validates on receipt
    let v = from_variant(&Variant::Sig(String::from("(istxa{ys}as)")), &Shape::Sig)
        .unwrap();
    assert_eq!(v, Value::Sig(String::from("(istxa{ys}as)")));

    // an embedded wire value keeps its own type and text
    let w = Variant::Boxed(Box::new(Variant::Tuple(vec![
        Variant::Int32(0),
        Variant::Int32(1),
    ])));
    let v = from_variant(&w, &Shape::Wire).unwrap();
    match &v {
        Value::Wire(inner) => {
            assert_eq!(inner.type_string(), "(ii)");
            assert_eq!(to_text(inner).unwrap(), "(0, 1)");
        },
        _ => panic!("expected an embedded wire value"),
    }
}

#[test]
fn variant_index() {
    let direction = Shape::Enum(EnumShape {
        tag: TagMode::Ordinal(ReprWidth::Unsigned32),
        variants: vec![
            VariantShape { name: String::from("North"), disc: 1, payload: PayloadShape::Unit },
            VariantShape { name: String::from("East"), disc: 2, payload: PayloadShape::Unit },
            VariantShape { name: String::from("South"), disc: 3, payload: PayloadShape::Unit },
            VariantShape { name: String::from("West"), disc: 4, payload: PayloadShape::Unit },
        ],
    });
    assert_eq!(shape_ty(&direction).type_string(), "u");

    let w = to_variant(
        &Value::EnumVal { index: 0, payload: PayloadValue::Unit },
        &direction,
    )
        .unwrap();
    assert_eq!(w.type_string(), "u");
    assert_eq!(to_text(&w).unwrap(), "0");

    let v = from_variant(&Variant::Uint32(3), &direction).unwrap();
    assert_eq!(v, Value::EnumVal { index: 3, payload: PayloadValue::Unit });

    let item = Shape::Enum(EnumShape {
        tag: TagMode::Ordinal(ReprWidth::Unsigned32),
        variants: vec![
            VariantShape { name: String::from("A"), disc: 0, payload: PayloadShape::Unit },
            VariantShape {
                name: String::from("B"),
                disc: 1,
                payload: PayloadShape::Newtype(Box::new(Shape::I32)),
            },
            VariantShape {
                name: String::from("C"),
                disc: 2,
                payload: PayloadShape::Fields(vec![Shape::I32, Shape::I32]),
            },
            VariantShape {
                name: String::from("D"),
                disc: 3,
                payload: PayloadShape::Fields(vec![Shape::I32, Shape::I32, Shape::I32]),
            },
        ],
    });
    assert_eq!(shape_ty(&item).type_string(), "(uv)");

    let w = to_variant(
        &Value::EnumVal {
            index: 1,
            payload: PayloadValue::Newtype(Box::new(Value::I32(2))),
        },
        &item,
    )
        .unwrap();
    assert_eq!(w.type_string(), "(uv)");
    assert_eq!(to_text(&w).unwrap(), "(1, <2>)");

    let w = Variant::Tuple(vec![
        Variant::Uint32(3),
        Variant::Boxed(Box::new(Variant::Tuple(vec![
            Variant::Int32(5),
            Variant::Int32(6),
            Variant::Int32(7),
        ]))),
    ]);
    let v = from_variant(&w, &item).unwrap();
    assert_eq!(
        v,
        Value::EnumVal {
            index: 3,
            payload: PayloadValue::Fields(vec![
                Value::I32(5),
                Value::I32(6),
                Value::I32(7),
            ]),
        }
    );
}
