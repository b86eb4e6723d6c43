//! Schemas derived from items, and attributes read from their metas.

use typewire::analyze::{
    AnalyzeError, DataInput, DeriveInput, Derived, FieldInput, FieldsInput, VariantInput, analyze,
};
use typewire::attr::{
    AttrInput, AttrNamespace, ContainerAttrs, ContainerDefault, FieldAttrs, FieldDefault as AttrDefault,
    MetaInput, MetaValue, SkipOpts, VariantAttrs,
};
use typewire::case::RenameAll;
use typewire::decode::parse_section;
use typewire::encode::encode_record;
use typewire::schema::{FromBody, TypeShape};
use typewire::{
    EnumFlags, FieldDefault, FieldFlags, Scalar, Schema, StructFlags, StructShape, Tagging,
    VariantFlags, VariantKind,
};

fn prim(s: Scalar) -> Box<Schema> {
    Box::new(Schema::Primitive(s))
}

fn named(name: &str, attrs: FieldAttrs, ty: Box<Schema>) -> FieldInput {
    FieldInput { ident: Some(name.to_string()), attrs, ty }
}

fn positional(ty: Box<Schema>) -> FieldInput {
    FieldInput { ident: None, attrs: FieldAttrs::default(), ty }
}

fn item(ident: &str, attrs: ContainerAttrs, data: DataInput) -> DeriveInput {
    DeriveInput { ident: ident.to_string(), generics: Vec::new(), attrs, data }
}

fn variant(ident: &str, attrs: VariantAttrs, fields: FieldsInput) -> VariantInput {
    VariantInput { ident: ident.to_string(), attrs, fields }
}

fn meta(path: &str, value: MetaValue) -> MetaInput {
    MetaInput { path: path.to_string(), value }
}

fn s(text: &str) -> MetaValue {
    MetaValue::Str(text.to_string())
}

fn attr(namespace: AttrNamespace, metas: Vec<MetaInput>) -> AttrInput {
    AttrInput { namespace, metas }
}

// ---------------------------------------------------------------------------
// Structs
// ---------------------------------------------------------------------------

#[test]
fn named_struct_fields_follow_the_container() {
    let container = ContainerAttrs {
        rename_all: Some(RenameAll::Camel),
        default: ContainerDefault::Default,
        deny_unknown_fields: true,
        ..ContainerAttrs::default()
    };
    let aliased = FieldAttrs {
        aliases: vec!["mail".to_string()],
        encoding: typewire::attr::EncodingOpts { base64: true, ..Default::default() },
        ..FieldAttrs::default()
    };
    let input = item(
        "User",
        container,
        DataInput::Struct(FieldsInput::Named(vec![
            named("user_id", FieldAttrs::default(), prim(Scalar::u32)),
            named("email_address", aliased, prim(Scalar::str)),
        ])),
    );
    let st = match analyze(input).unwrap() {
        Derived::Struct(st) => st,
        other => panic!("expected a struct, got {other:?}"),
    };
    assert_eq!(st.ident, "User");
    assert_eq!(
        st.flags.bits(),
        StructFlags::CONTAINER_DEFAULT | StructFlags::DENY_UNKNOWN_FIELDS
    );
    match &st.shape {
        StructShape::Named(fields) => {
            assert_eq!(fields[0].wire_name, "userId");
            assert_eq!(fields[0].default, FieldDefault::Default);
            assert_eq!(fields[1].wire_name, "emailAddress");
            assert_eq!(fields[1].aliases, vec!["mail"]);
            assert_eq!(fields[1].flags.bits(), FieldFlags::BASE64);
        }
        other => panic!("expected named fields, got {other:?}"),
    }
}

#[test]
fn tuple_and_unit_structs() {
    let tuple = item(
        "Pair",
        ContainerAttrs::default(),
        DataInput::Struct(FieldsInput::Unnamed(vec![positional(prim(Scalar::u8)), positional(prim(Scalar::bool))])),
    );
    match analyze(tuple).unwrap() {
        Derived::Struct(st) => assert_eq!(st.shape, StructShape::Tuple(vec![prim(Scalar::u8), prim(Scalar::bool)])),
        other => panic!("expected a struct, got {other:?}"),
    }
    let unit = item("Empty", ContainerAttrs::default(), DataInput::Struct(FieldsInput::Unit));
    match analyze(unit).unwrap() {
        Derived::Struct(st) => assert_eq!(st.shape, StructShape::Unit),
        other => panic!("expected a struct, got {other:?}"),
    }
}

#[test]
fn field_paths_must_parse() {
    let bad = FieldAttrs { default: AttrDefault::Path("not a path!".to_string()), ..FieldAttrs::default() };
    let input = item(
        "S",
        ContainerAttrs::default(),
        DataInput::Struct(FieldsInput::Named(vec![named("x", bad, prim(Scalar::u8))])),
    );
    assert_eq!(analyze(input).unwrap_err(), AnalyzeError::InvalidPath { path: "not a path!".to_string() });

    let good = FieldAttrs {
        default: AttrDefault::Path("crate::make_x".to_string()),
        skip_serializing_if: Some("Option::is_none".to_string()),
        ..FieldAttrs::default()
    };
    let input = item(
        "S",
        ContainerAttrs::default(),
        DataInput::Struct(FieldsInput::Named(vec![named("x", good, prim(Scalar::u8))])),
    );
    match analyze(input).unwrap() {
        Derived::Struct(st) => match &st.shape {
            StructShape::Named(fields) => {
                assert_eq!(fields[0].default, FieldDefault::Path("crate::make_x".to_string()));
                assert_eq!(fields[0].skip_serializing_if, Some("Option::is_none".to_string()));
            }
            other => panic!("expected named fields, got {other:?}"),
        },
        other => panic!("expected a struct, got {other:?}"),
    }
}

#[test]
fn named_fields_need_names() {
    let input = item(
        "S",
        ContainerAttrs::default(),
        DataInput::Struct(FieldsInput::Named(vec![positional(prim(Scalar::u8))])),
    );
    assert_eq!(analyze(input).unwrap_err(), AnalyzeError::UnnamedField);
}

#[test]
fn transparent_structs() {
    let transparent = ContainerAttrs { transparent: true, ..ContainerAttrs::default() };
    let one = item(
        "Id",
        transparent.clone(),
        DataInput::Struct(FieldsInput::Named(vec![named("id", FieldAttrs::default(), prim(Scalar::Uuid))])),
    );
    match analyze(one).unwrap() {
        Derived::Transparent(t) => {
            assert_eq!(t.field_ident, Some("id".to_string()));
            assert_eq!(t.field_ty, prim(Scalar::Uuid));
        }
        other => panic!("expected transparent, got {other:?}"),
    }
    let two = item(
        "Id",
        transparent.clone(),
        DataInput::Struct(FieldsInput::Unnamed(vec![positional(prim(Scalar::u8)), positional(prim(Scalar::u8))])),
    );
    assert_eq!(analyze(two).unwrap_err(), AnalyzeError::TransparentFieldCount);
    let on_enum = item("E", transparent, DataInput::Enum(Vec::new()));
    assert_eq!(analyze(on_enum).unwrap_err(), AnalyzeError::TransparentEnum);
}

#[test]
fn unions_are_refused() {
    assert_eq!(analyze(item("U", ContainerAttrs::default(), DataInput::Union)).unwrap_err(), AnalyzeError::Union);
}

// ---------------------------------------------------------------------------
// Enums
// ---------------------------------------------------------------------------

#[test]
fn enum_variants_and_tagging() {
    let container = ContainerAttrs {
        rename_all: Some(RenameAll::Snake),
        rename_all_fields: Some(RenameAll::Camel),
        tag: Some("kind".to_string()),
        content: Some("data".to_string()),
        ..ContainerAttrs::default()
    };
    let skipped = VariantAttrs {
        skip: SkipOpts { all: false, serializing: true, deserializing: false },
        aliases: vec!["old_move".to_string()],
        ..VariantAttrs::default()
    };
    let input = item(
        "Event",
        container,
        DataInput::Enum(vec![
            variant("KeyPress", VariantAttrs::default(), FieldsInput::Unit),
            variant(
                "MouseMove",
                skipped,
                FieldsInput::Named(vec![named("delta_x", FieldAttrs::default(), prim(Scalar::i32))]),
            ),
            variant("Pair", VariantAttrs::default(), FieldsInput::Unnamed(vec![positional(prim(Scalar::u8)), positional(prim(Scalar::u8))])),
        ]),
    );
    let e = match analyze(input).unwrap() {
        Derived::Enum(e) => e,
        other => panic!("expected an enum, got {other:?}"),
    };
    assert_eq!(e.tagging, Tagging::Adjacent { tag: "kind".to_string(), content: "data".to_string() });
    assert_eq!(e.flags.bits(), 0);
    assert_eq!(e.variants[0].wire_name, "key_press");
    assert_eq!(e.variants[1].wire_name, "mouse_move");
    assert_eq!(e.variants[1].all_wire_names, vec!["mouse_move", "old_move"]);
    assert_eq!(e.variants[1].flags.bits(), VariantFlags::SKIP_SER);
    match &e.variants[1].kind {
        VariantKind::Named(fields) => assert_eq!(fields[0].wire_name, "deltaX"),
        other => panic!("expected named fields, got {other:?}"),
    }
    assert_eq!(e.variants[2].kind, VariantKind::Unnamed(vec![prim(Scalar::u8), prim(Scalar::u8)]));
}

#[test]
fn internally_tagged_enums_refuse_wide_tuples() {
    let container = ContainerAttrs { tag: Some("type".to_string()), ..ContainerAttrs::default() };
    let input = item(
        "E",
        container,
        DataInput::Enum(vec![
            variant("One", VariantAttrs::default(), FieldsInput::Unnamed(vec![positional(prim(Scalar::u8))])),
            variant("Two", VariantAttrs::default(), FieldsInput::Unnamed(vec![positional(prim(Scalar::u8)), positional(prim(Scalar::u8))])),
            variant("Three", VariantAttrs::default(), FieldsInput::Unnamed(vec![positional(prim(Scalar::u8)), positional(prim(Scalar::u8)), positional(prim(Scalar::u8))])),
        ]),
    );
    assert_eq!(analyze(input).unwrap_err(), AnalyzeError::TaggedTupleVariant { variant: "Two".to_string() });
}

#[test]
fn unit_enums_are_flagged() {
    let container = ContainerAttrs {
        untagged: true,
        diffable: typewire::attr::DiffableOpts { atomic: true, transparent: false },
        ..ContainerAttrs::default()
    };
    let input = item(
        "Color",
        container,
        DataInput::Enum(vec![
            variant("Red", VariantAttrs::default(), FieldsInput::Unit),
            variant("Green", VariantAttrs { rename: Some("verde".to_string()), ..VariantAttrs::default() }, FieldsInput::Unit),
        ]),
    );
    match analyze(input).unwrap() {
        Derived::Enum(e) => {
            assert_eq!(e.tagging, Tagging::Untagged);
            assert_eq!(e.flags.bits(), EnumFlags::ATOMIC | EnumFlags::ALL_UNIT);
            assert_eq!(e.variants[1].wire_name, "verde");
        }
        other => panic!("expected an enum, got {other:?}"),
    }
}

// ---------------------------------------------------------------------------
// Proxies
// ---------------------------------------------------------------------------

#[test]
fn into_proxies() {
    let own = ContainerAttrs { into: Some("Dto".to_string()), ..ContainerAttrs::default() };
    match analyze(item("Model", own, DataInput::Struct(FieldsInput::Unit))).unwrap() {
        Derived::IntoProxy(p, FromBody::Own(TypeShape::Struct(st))) => {
            assert_eq!(*p.into_ty, Schema::Native("Dto".to_string()));
            assert_eq!(st.ident, "Model");
        }
        other => panic!("expected an into proxy, got {other:?}"),
    }
    let both = ContainerAttrs {
        into: Some("Dto".to_string()),
        try_from: Some("Raw".to_string()),
        ..ContainerAttrs::default()
    };
    match analyze(item("Model", both, DataInput::Union)).unwrap() {
        Derived::IntoProxy(_, FromBody::TryProxy(p)) => assert_eq!(p, "Raw"),
        other => panic!("expected an into proxy, got {other:?}"),
    }
    let own_union = ContainerAttrs { into: Some("Dto".to_string()), ..ContainerAttrs::default() };
    assert_eq!(analyze(item("Model", own_union, DataInput::Union)).unwrap_err(), AnalyzeError::Union);
}

#[test]
fn from_proxies() {
    let container = ContainerAttrs { try_from: Some("Raw".to_string()), ..ContainerAttrs::default() };
    match analyze(item("Checked", container, DataInput::Enum(Vec::new()))).unwrap() {
        Derived::FromProxy(p, TypeShape::Enum(e)) => {
            assert!(p.is_try);
            assert_eq!(*p.proxy, Schema::Native("Raw".to_string()));
            assert!(e.variants.is_empty());
        }
        other => panic!("expected a from proxy, got {other:?}"),
    }
}

#[test]
fn derived_schema_reads_back_from_its_record() {
    let input = item(
        "Point",
        ContainerAttrs { rename_all: Some(RenameAll::ScreamingSnake), ..ContainerAttrs::default() },
        DataInput::Struct(FieldsInput::Named(vec![
            named("x_pos", FieldAttrs::default(), prim(Scalar::F64)),
            named("y_pos", FieldAttrs::default(), prim(Scalar::F64)),
        ])),
    );
    let schema = analyze(input).unwrap().into_schema();
    let parsed = parse_section(&encode_record(&schema)).unwrap();
    assert_eq!(parsed, vec![schema]);
    let ts = typewire::typescript::generate(&parsed);
    assert_eq!(ts, "export interface Point {\n  X_POS: number;\n  Y_POS: number;\n}\n\n");
}

// ---------------------------------------------------------------------------
// Reading attributes
// ---------------------------------------------------------------------------

#[test]
fn container_attributes_from_metas() {
    let attrs = vec![
        attr(AttrNamespace::Serde, vec![meta("rename_all", s("camelCase")), meta("tag", s("type"))]),
        attr(AttrNamespace::Diffable, vec![meta("atomic", MetaValue::Absent)]),
        attr(AttrNamespace::Typewire, vec![meta("into", s("crate::Dto"))]),
        attr(AttrNamespace::Other, vec![meta("untagged", MetaValue::Absent)]),
    ];
    let c = ContainerAttrs::from_attrs(&attrs);
    assert_eq!(c.rename_all, Some(RenameAll::Camel));
    assert_eq!(c.tag, Some("type".to_string()));
    assert!(c.diffable.atomic);
    assert_eq!(c.into, Some("crate::Dto".to_string()));
    assert!(!c.untagged);
}

#[test]
fn a_bad_meta_stops_its_attribute() {
    let attrs = vec![
        attr(AttrNamespace::Serde, vec![meta("untagged", s("x")), meta("deny_unknown_fields", MetaValue::Absent)]),
        attr(AttrNamespace::Serde, vec![meta("bound", MetaValue::List), meta("transparent", MetaValue::Absent)]),
        attr(AttrNamespace::Serde, vec![meta("from", s("not a path!")), meta("default", MetaValue::Absent)]),
        attr(AttrNamespace::Serde, vec![meta("bound", s("T: Clone")), meta("content", s("c"))]),
    ];
    let c = ContainerAttrs::from_attrs(&attrs);
    assert!(c.untagged);
    assert!(!c.deny_unknown_fields);
    assert!(!c.transparent);
    assert_eq!(c.from, None);
    assert_eq!(c.default, ContainerDefault::NoDefault);
    assert_eq!(c.content, Some("c".to_string()));
}

#[test]
fn rename_all_with_an_unknown_case_clears_it() {
    let attrs = vec![
        attr(AttrNamespace::Serde, vec![meta("rename_all", s("snake_case"))]),
        attr(AttrNamespace::Serde, vec![meta("rename_all", s("Sentence case"))]),
    ];
    assert_eq!(ContainerAttrs::from_attrs(&attrs).rename_all, None);
}

#[test]
fn field_attributes_from_metas() {
    let attrs = vec![
        attr(AttrNamespace::Serde, vec![
            meta("alias", s("a")),
            meta("alias", s("b")),
            meta("default", MetaValue::Absent),
            meta("with", s("serde_bytes")),
            meta("skip_serializing_if", s("Vec::is_empty")),
        ]),
        attr(AttrNamespace::Typewire, vec![meta("base64", MetaValue::Absent), meta("lenient", MetaValue::Absent)]),
    ];
    let f = FieldAttrs::from_attrs(&attrs);
    assert_eq!(f.aliases, vec!["a", "b"]);
    assert_eq!(f.default, AttrDefault::Default);
    assert!(f.encoding.serde_bytes && f.encoding.base64 && f.lenient);
    assert_eq!(f.skip_serializing_if, Some("Vec::is_empty".to_string()));

    let with_path = FieldAttrs::from_attrs(&vec![attr(AttrNamespace::Serde, vec![meta("default", s("make"))])]);
    assert_eq!(with_path.default, AttrDefault::Path("make".to_string()));
    let with_number = FieldAttrs::from_attrs(&vec![attr(AttrNamespace::Serde, vec![meta("default", MetaValue::Expr), meta("flatten", MetaValue::Absent)])]);
    assert_eq!(with_number.default, AttrDefault::Default);
    assert!(with_number.flatten);
}

#[test]
fn variant_attributes_from_metas() {
    let attrs = vec![attr(AttrNamespace::Serde, vec![
        meta("rename", s("go")),
        meta("alias", s("start")),
        meta("skip_deserializing", MetaValue::Absent),
        meta("other", MetaValue::Absent),
        meta("rename_all", s("kebab-case")),
    ])];
    let v = VariantAttrs::from_attrs(&attrs);
    assert_eq!(v.rename, Some("go".to_string()));
    assert_eq!(v.aliases, vec!["start"]);
    assert!(v.skip_deserializing() && !v.skip_serializing());
    assert!(v.other);
    assert_eq!(v.rename_all, Some(RenameAll::Kebab));
}

#[test]
fn serde_and_typewire_container_options_agree() {
    let metas = vec![
        meta("rename_all", s("camelCase")),
        meta("tag", s("type")),
        meta("deny_unknown_fields", MetaValue::Absent),
        meta("bound", s("T: Clone")),
    ];
    let serde = ContainerAttrs::from_attrs(&vec![attr(AttrNamespace::Serde, metas.clone())]);
    let typewire = ContainerAttrs::from_attrs(&vec![attr(AttrNamespace::Typewire, metas)]);
    assert_eq!(serde, typewire);
    assert_eq!(serde.rename_all, Some(RenameAll::Camel));
    assert!(serde.deny_unknown_fields);
}

#[test]
fn ascii_conventions_follow_from_snake_case() {
    for ident in ["userName", "HTTPSPort", "my_field_2", "Plain", "already_snake_case", "XMLHttpRequest"] {
        let snake = RenameAll::Snake.apply(ident);
        let kebab = RenameAll::Kebab.apply(ident);
        let lower = RenameAll::Lower.apply(ident);
        assert_eq!(kebab, snake.replace('_', "-"), "{ident}");
        assert_eq!(lower, snake.replace('_', ""), "{ident}");
        assert_eq!(RenameAll::ScreamingSnake.apply(ident), snake.to_ascii_uppercase(), "{ident}");
        assert_eq!(RenameAll::ScreamingKebab.apply(ident), kebab.to_ascii_uppercase(), "{ident}");
        assert_eq!(RenameAll::Upper.apply(ident), lower.to_ascii_uppercase(), "{ident}");
    }
    assert_eq!(RenameAll::Kebab.apply("HTTPSPort"), "https-port");
}
