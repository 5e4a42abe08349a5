use glib_serde::deserializer::from_variant;
use glib_serde::serializer::to_variant;
use glib_serde::shape::Shape;
use glib_serde::text::to_text;
use glib_serde::value::Value;
use glib_serde::variant::Variant;

fn sig_of(w: &Variant) -> String {
    w.type_string()
}

fn text_of(w: &Variant) -> String {
    to_text(w).unwrap()
}

fn enc(v: Value, s: Shape) -> Variant {
    to_variant(&v, &s).unwrap()
}

#[test]
fn basic_types() {
    let w = enc(Value::I32(10), Shape::I32);
    assert_eq!(sig_of(&w), "i");
    assert_eq!(text_of(&w), "10");

    let w = enc(Value::I64(200), Shape::I64);
    assert_eq!(sig_of(&w), "x");
    assert_eq!(text_of(&w), "200");

    let w = enc(Value::U32(300), Shape::U32);
    assert_eq!(sig_of(&w), "u");
    assert_eq!(text_of(&w), "300");

    let w = enc(Value::U64(400), Shape::U64);
    assert_eq!(sig_of(&w), "t");
    assert_eq!(text_of(&w), "400");

    let w = enc(Value::Bool(true), Shape::Bool);
    assert_eq!(text_of(&w), "true");

    let w = enc(Value::U8(6), Shape::U8);
    assert_eq!(text_of(&w), "0x06");

    let bits = 10.1f64.to_bits();
    let w = enc(Value::F64(bits), Shape::F64);
    assert_eq!(sig_of(&w), "d");
    assert_eq!(from_variant(&w, &Shape::F64).unwrap(), Value::F64(bits));

    let w = enc(Value::I32(123), Shape::I32);
    assert_eq!(text_of(&w), "123");

    let w = enc(Value::Str(String::from("123")), Shape::Str);
    assert_eq!(text_of(&w), "'123'");

    let w = enc(Value::I32(124), Shape::I32);
    assert_eq!(text_of(&w), "124");

    let w = enc(Value::Str(String::from("124")), Shape::Str);
    assert_eq!(text_of(&w), "'124'");

    let w = enc(Value::Path(String::from("/com/org/Test")), Shape::Path);
    assert_eq!(sig_of(&w), "o");
    assert_eq!(text_of(&w), "'/com/org/Test'");
}

#[test]
fn serialize_basic_types() {
    let w = enc(Value::Bool(true), Shape::Bool);
    assert_eq!(sig_of(&w), "b");
    assert_eq!(text_of(&w), "true");

    let w = enc(Value::I16(-3), Shape::I16);
    assert_eq!(sig_of(&w), "n");
    assert_eq!(text_of(&w), "-3");

    let w = enc(Value::I32(-4), Shape::I32);
    assert_eq!(sig_of(&w), "i");
    assert_eq!(text_of(&w), "-4");

    let w = enc(Value::I64(-5), Shape::I64);
    assert_eq!(sig_of(&w), "x");
    assert_eq!(text_of(&w), "-5");

    let w = enc(Value::U8(6), Shape::U8);
    assert_eq!(sig_of(&w), "y");
    assert_eq!(text_of(&w), "0x06");

    let w = enc(Value::U16(7), Shape::U16);
    assert_eq!(sig_of(&w), "q");
    assert_eq!(text_of(&w), "7");

    let w = enc(Value::U32(8), Shape::U32);
    assert_eq!(sig_of(&w), "u");
    assert_eq!(text_of(&w), "8");

    let w = enc(Value::U64(9), Shape::U64);
    assert_eq!(sig_of(&w), "t");
    assert_eq!(text_of(&w), "9");

    let bits = 10.1f64.to_bits();
    let w = enc(Value::F64(bits), Shape::F64);
    assert_eq!(sig_of(&w), "d");
    assert_eq!(w, Variant::Double(bits));

    let w = enc(Value::Str(String::from("123")), Shape::Str);
    assert_eq!(sig_of(&w), "s");
    assert_eq!(text_of(&w), "'123'");

    let w = enc(Value::Str(String::from("124")), Shape::Str);
    assert_eq!(sig_of(&w), "s");
    assert_eq!(text_of(&w), "'124'");

    let w = enc(Value::Path(String::from("/com/org/Test")), Shape::Path);
    assert_eq!(sig_of(&w), "o");
    assert_eq!(text_of(&w), "'/com/org/Test'");

    let w = enc(Value::Sig(String::from("(asgva(in)a{sb})")), Shape::Sig);
    assert_eq!(sig_of(&w), "g");
    assert_eq!(text_of(&w), "'(asgva(in)a{sb})'");
}

#[test]
fn serialize_container_types() {
    let w = enc(
        Value::OptSome(Box::new(Value::Str(String::from("Hello")))),
        Shape::Opt(Box::new(Shape::Str)),
    );
    assert_eq!(sig_of(&w), "ms");
    assert_eq!(text_of(&w), "'Hello'");

    let w = enc(Value::OptNone, Shape::Opt(Box::new(Shape::Str)));
    assert_eq!(sig_of(&w), "ms");
    assert_eq!(text_of(&w), "nothing");

    let w = enc(
        Value::List(vec![Value::I32(1), Value::I32(2), Value::I32(3)]),
        Shape::List(Box::new(Shape::I32)),
    );
    assert_eq!(sig_of(&w), "ai");
    assert_eq!(text_of(&w), "[1, 2, 3]");

    let w = enc(
        Value::MapOf(vec![(Value::U64(2), Value::Str(String::from("World")))]),
        Shape::MapOf(Box::new(Shape::U64), Box::new(Shape::Str)),
    );
    assert_eq!(sig_of(&w), "a{ts}");
    assert_eq!(text_of(&w), "{2: 'World'}");

    let w = enc(Value::Wire(Variant::Str(String::from("Hello"))), Shape::Wire);
    assert_eq!(sig_of(&w), "v");
    assert_eq!(text_of(&w), "<'Hello'>");

    let w = enc(
        Value::Wire(Variant::ObjPath(String::from("/com/org/Test"))),
        Shape::Wire,
    );
    assert_eq!(sig_of(&w), "v");
    assert_eq!(text_of(&w), "<objectpath '/com/org/Test'>");

    let w = enc(Value::Wire(Variant::Sig(String::from("a(is)"))), Shape::Wire);
    assert_eq!(sig_of(&w), "v");
    assert_eq!(text_of(&w), "<signature 'a(is)'>");

    let dict = Variant::Array {
        elem: glib_serde::ty::VariantTy::Entry(
            Box::new(glib_serde::ty::VariantTy::Str),
            Box::new(glib_serde::ty::VariantTy::Var),
        ),
        items: vec![
            Variant::Entry(
                Box::new(Variant::Str(String::from("b"))),
                Box::new(Variant::Boxed(Box::new(Variant::Tuple(vec![
                    Variant::Str(String::from("hello")),
                    Variant::Str(String::from("world")),
                ])))),
            ),
            Variant::Entry(
                Box::new(Variant::Str(String::from("a"))),
                Box::new(Variant::Boxed(Box::new(Variant::Str(String::from("abc"))))),
            ),
        ],
    };
    let w = enc(Value::Wire(dict), Shape::Wire);
    assert_eq!(sig_of(&w), "v");
    assert_eq!(text_of(&w), "<{'b': <('hello', 'world')>, 'a': <'abc'>}>");

    let maybe = Variant::Maybe {
        elem: glib_serde::ty::VariantTy::Str,
        inner: Some(Box::new(Variant::Str(String::from("Hello")))),
    };
    let w = enc(Value::Wire(maybe), Shape::Wire);
    assert_eq!(text_of(&w), "<@ms 'Hello'>");

    let maybe = Variant::Maybe { elem: glib_serde::ty::VariantTy::Str, inner: None };
    let w = enc(Value::Wire(maybe), Shape::Wire);
    assert_eq!(text_of(&w), "<@ms nothing>");

    let arr = Variant::Array {
        elem: glib_serde::ty::VariantTy::Uint32,
        items: vec![Variant::Uint32(1), Variant::Uint32(2), Variant::Uint32(3)],
    };
    let w = enc(Value::Wire(arr), Shape::Wire);
    assert_eq!(text_of(&w), "<[uint32 1, 2, 3]>");

    let tup = Variant::Tuple(vec![
        Variant::Str(String::from("Hello")),
        Variant::Str(String::from("World")),
    ]);
    let w = enc(Value::Wire(tup), Shape::Wire);
    assert_eq!(text_of(&w), "<('Hello', 'World')>");

    let dict = Variant::Array {
        elem: glib_serde::ty::VariantTy::Entry(
            Box::new(glib_serde::ty::VariantTy::Int64),
            Box::new(glib_serde::ty::VariantTy::Str),
        ),
        items: vec![Variant::Entry(
            Box::new(Variant::Int64(1)),
            Box::new(Variant::Str(String::from("Hello"))),
        )],
    };
    let w = enc(Value::Wire(dict), Shape::Wire);
    assert_eq!(text_of(&w), "<{int64 1: 'Hello'}>");
}

#[test]
fn deserialize_basic_types() {
    let v = from_variant(&Variant::Bool(true), &Shape::Bool).unwrap();
    assert_eq!(v, Value::Bool(true));

    let v = from_variant(&Variant::Int16(-3), &Shape::I16).unwrap();
    assert_eq!(v, Value::I16(-3));

    let v = from_variant(&Variant::Int32(-4000000), &Shape::I32).unwrap();
    assert_eq!(v, Value::I32(-4000000));

    let v = from_variant(&Variant::Int64(-5000000000000), &Shape::I64).unwrap();
    assert_eq!(v, Value::I64(-5000000000000));

    let v = from_variant(&Variant::Byte(6), &Shape::U8).unwrap();
    assert_eq!(v, Value::U8(6));

    let v = from_variant(&Variant::Uint16(7), &Shape::U16).unwrap();
    assert_eq!(v, Value::U16(7));

    let v = from_variant(&Variant::Uint32(8), &Shape::U32).unwrap();
    assert_eq!(v, Value::U32(8));

    let v = from_variant(&Variant::Uint64(9), &Shape::U64).unwrap();
    assert_eq!(v, Value::U64(9));

    let bits = 10.1f64.to_bits();
    let v = from_variant(&Variant::Double(bits), &Shape::F64).unwrap();
    assert_eq!(v, Value::F64(bits));

    let v = from_variant(&Variant::Str(String::from("123")), &Shape::Str).unwrap();
    assert_eq!(v, Value::Str(String::from("123")));

    let v = from_variant(&Variant::ObjPath(String::from("/com/org/Test")), &Shape::Path)
        .unwrap();
    assert_eq!(v, Value::Path(String::from("/com/org/Test")));

    let v = from_variant(
        &Variant::Sig(String::from("(asgva(in)a{sb})")),
        &Shape::Sig,
    )
        .unwrap();
    assert_eq!(v, Value::Sig(String::from("(asgva(in)a{sb})")));
}

#[test]
fn deserialize_container_types() {
    let w = Variant::Maybe {
        elem: glib_serde::ty::VariantTy::Str,
        inner: Some(Box::new(Variant::Str(String::from("Hello")))),
    };
    let v = from_variant(&w, &Shape::Opt(Box::new(Shape::Str))).unwrap();
    assert_eq!(v, Value::OptSome(Box::new(Value::Str(String::from("Hello")))));

    let w = Variant::Maybe { elem: glib_serde::ty::VariantTy::Str, inner: None };
    let v = from_variant(&w, &Shape::Opt(Box::new(Shape::Str))).unwrap();
    assert_eq!(v, Value::OptNone);

    let w = Variant::Array {
        elem: glib_serde::ty::VariantTy::Int32,
        items: vec![Variant::Int32(1), Variant::Int32(2), Variant::Int32(3)],
    };
    let v = from_variant(&w, &Shape::List(Box::new(Shape::I32))).unwrap();
    assert_eq!(
        v,
        Value::List(vec![Value::I32(1), Value::I32(2), Value::I32(3)])
    );

    let w = Variant::Array {
        elem: glib_serde::ty::VariantTy::Entry(
            Box::new(glib_serde::ty::VariantTy::Int32),
            Box::new(glib_serde::ty::VariantTy::Str),
        ),
        items: vec![Variant::Entry(
            Box::new(Variant::Int32(2)),
            Box::new(Variant::Str(String::from("World"))),
        )],
    };
    let v = from_variant(&w, &Shape::MapOf(Box::new(Shape::I32), Box::new(Shape::Str)))
        .unwrap();
    assert_eq!(
        v,
        Value::MapOf(vec![(Value::I32(2), Value::Str(String::from("World")))])
    );

    // an integer key widens to the requested unsigned kind, range-checked
    let v = from_variant(&w, &Shape::MapOf(Box::new(Shape::U64), Box::new(Shape::Str)))
        .unwrap();
    assert_eq!(
        v,
        Value::MapOf(vec![(Value::U64(2), Value::Str(String::from("World")))])
    );

    let w = Variant::Boxed(Box::new(Variant::Str(String::from("Hello"))));
    let v = from_variant(&w, &Shape::Wire).unwrap();
    match &v {
        Value::Wire(inner) => {
            assert_eq!(inner.type_string(), "s");
            assert_eq!(*inner, Variant::Str(String::from("Hello")));
        },
        _ => panic!("expected an embedded wire value"),
    }

    let w = Variant::Boxed(Box::new(Variant::ObjPath(String::from("/com/org/Test"))));
    let v = from_variant(&w, &Shape::Wire).unwrap();
    match &v {
        Value::Wire(inner) => {
            assert_eq!(inner.type_string(), "o");
        },
        _ => panic!("expected an embedded wire value"),
    }

    let w = Variant::Boxed(Box::new(Variant::Sig(String::from("a(is)"))));
    let v = from_variant(&w, &Shape::Wire).unwrap();
    match &v {
        Value::Wire(inner) => {
            assert_eq!(inner.type_string(), "g");
        },
        _ => panic!("expected an embedded wire value"),
    }

    let w = Variant::Boxed(Box::new(Variant::Maybe {
        elem: glib_serde::ty::VariantTy::Str,
        inner: Some(Box::new(Variant::Str(String::from("Hello")))),
    }));
    let v = from_variant(&w, &Shape::Wire).unwrap();
    match &v {
        Value::Wire(inner) => {
            assert_eq!(inner.type_string(), "ms");
        },
        _ => panic!("expected an embedded wire value"),
    }

    let w = Variant::Boxed(Box::new(Variant::Array {
        elem: glib_serde::ty::VariantTy::Uint32,
        items: vec![Variant::Uint32(1), Variant::Uint32(2), Variant::Uint32(3)],
    }));
    let v = from_variant(&w, &Shape::Wire).unwrap();
    match &v {
        Value::Wire(inner) => {
            assert_eq!(inner.type_string(), "au");
        },
        _ => panic!("expected an embedded wire value"),
    }

    let w = Variant::Boxed(Box::new(Variant::Tuple(vec![
        Variant::Str(String::from("Hello")),
        Variant::Str(String::from("World")),
    ])));
    let v = from_variant(&w, &Shape::Wire).unwrap();
    match &v {
        Value::Wire(inner) => {
            assert_eq!(inner.type_string(), "(ss)");
        },
        _ => panic!("expected an embedded wire value"),
    }

    let w = Variant::Boxed(Box::new(Variant::Array {
        elem: glib_serde::ty::VariantTy::Entry(
            Box::new(glib_serde::ty::VariantTy::Int64),
            Box::new(glib_serde::ty::VariantTy::Str),
        ),
        items: vec![Variant::Entry(
            Box::new(Variant::Int64(1)),
            Box::new(Variant::Str(String::from("Hello"))),
        )],
    }));
    let v = from_variant(&w, &Shape::Wire).unwrap();
    match &v {
        Value::Wire(inner) => {
            assert_eq!(inner.type_string(), "a{xs}");
        },
        _ => panic!("expected an embedded wire value"),
    }
}
