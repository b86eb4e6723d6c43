//! Schemas written as section records, parsed back, and declared in
//! TypeScript.

use typewire::coded::{FieldDefaultKind, StructShapeTag, Tag, TaggingKind, VariantKindTag};
use typewire::decode;
use typewire::encode::{encode_record, encode_section};
use typewire::typescript;
use typewire::{
    Enum, EnumFlags, Field, FieldDefault, FieldFlags, FromProxy, IntoProxy, Scalar, Schema,
    Struct, StructFlags, StructShape, Tagging, Transparent, Variant, VariantFlags, VariantKind,
};

// ---------------------------------------------------------------------------
// Builders
// ---------------------------------------------------------------------------

fn prim(s: Scalar) -> Box<Schema> {
    Box::new(Schema::Primitive(s))
}

fn native(name: &str) -> Box<Schema> {
    Box::new(Schema::Native(name.to_string()))
}

fn field(ident: &str, ty: Box<Schema>, wire: &str) -> Field {
    Field {
        ident: ident.to_string(),
        ty,
        wire_name: wire.to_string(),
        flags: FieldFlags::empty(),
        aliases: Vec::new(),
        default: FieldDefault::NoDefault,
        skip_serializing_if: None,
    }
}

fn named_struct(ident: &str, flags: StructFlags, fields: Vec<Field>) -> Schema {
    Schema::Struct(Struct {
        ident: ident.to_string(),
        generics: Vec::new(),
        flags,
        shape: StructShape::Named(fields),
    })
}

fn shaped_struct(ident: &str, shape: StructShape) -> Schema {
    Schema::Struct(Struct {
        ident: ident.to_string(),
        generics: Vec::new(),
        flags: StructFlags::empty(),
        shape,
    })
}

fn transparent(ident: &str, atomic: bool, inner: Box<Schema>) -> Schema {
    Schema::Transparent(Transparent {
        ident: ident.to_string(),
        generics: Vec::new(),
        atomic,
        field_ident: None,
        field_ty: inner,
    })
}

fn variant(ident: &str, wire: &str, flags: VariantFlags, kind: VariantKind, aliases: &[&str]) -> Variant {
    let mut all = vec![wire.to_string()];
    all.extend(aliases.iter().map(|a| a.to_string()));
    Variant {
        ident: ident.to_string(),
        wire_name: wire.to_string(),
        all_wire_names: all,
        flags,
        kind,
    }
}

fn enumeration(ident: &str, flags: EnumFlags, tagging: Tagging, variants: Vec<Variant>) -> Schema {
    Schema::Enum(Enum {
        ident: ident.to_string(),
        generics: Vec::new(),
        flags,
        tagging,
        variants,
    })
}

/// The unit enum `Color { Red = "red", Green = "green" }`, externally tagged.
fn build_unit_enum_record() -> Vec<u8> {
    encode_record(&enumeration(
        "Color",
        EnumFlags::from_bits_retain(EnumFlags::ALL_UNIT),
        Tagging::External,
        vec![
            variant("Red", "red", VariantFlags::empty(), VariantKind::Unit, &[]),
            variant("Green", "green", VariantFlags::empty(), VariantKind::Unit, &[]),
        ],
    ))
}

/// Concatenates records into a section.
fn concat_records(records: &[&[u8]]) -> Vec<u8> {
    let mut buf = Vec::new();
    for r in records {
        buf.extend_from_slice(r);
    }
    buf
}

/// Parses record bytes and generates TypeScript.
fn generate_ts(bytes: &[u8]) -> String {
    let schemas = decode::parse_section(bytes).unwrap();
    typescript::generate(&schemas)
}

// ---------------------------------------------------------------------------
// Discriminants
// ---------------------------------------------------------------------------

#[test]
fn tag_from_u8_roundtrips() {
    for v in 0..=11u8 {
        assert!(Tag::from_u8(v).is_some(), "Tag::from_u8({v}) should be Some");
    }
    assert!(Tag::from_u8(12).is_none());
    assert!(Tag::from_u8(255).is_none());
    assert_eq!(Tag::from_u8(0), Some(Tag::Native));
    assert_eq!(Tag::from_u8(11), Some(Tag::Skipped));
}

#[test]
fn scalar_from_u8_roundtrips() {
    for v in 0..=23u8 {
        assert!(Scalar::from_u8(v).is_some(), "Scalar::from_u8({v}) should be Some");
    }
    assert!(Scalar::from_u8(24).is_none());
    assert_eq!(Scalar::from_u8(0), Some(Scalar::bool));
    assert_eq!(Scalar::from_u8(13), Some(Scalar::F32));
}

#[test]
fn tagging_kind_from_u8_roundtrips() {
    assert_eq!(TaggingKind::from_u8(0), Some(TaggingKind::External));
    assert_eq!(TaggingKind::from_u8(3), Some(TaggingKind::Untagged));
    assert!(TaggingKind::from_u8(4).is_none());
}

#[test]
fn struct_shape_tag_from_u8_roundtrips() {
    assert_eq!(StructShapeTag::from_u8(0), Some(StructShapeTag::Named));
    assert_eq!(StructShapeTag::from_u8(2), Some(StructShapeTag::Unit));
    assert!(StructShapeTag::from_u8(3).is_none());
}

#[test]
fn variant_kind_tag_from_u8_roundtrips() {
    assert_eq!(VariantKindTag::from_u8(0), Some(VariantKindTag::Unit));
    assert_eq!(VariantKindTag::from_u8(2), Some(VariantKindTag::Unnamed));
    assert!(VariantKindTag::from_u8(3).is_none());
}

#[test]
fn field_default_kind_from_u8_roundtrips() {
    assert_eq!(FieldDefaultKind::from_u8(0), Some(FieldDefaultKind::NoDefault));
    assert_eq!(FieldDefaultKind::from_u8(2), Some(FieldDefaultKind::Path));
    assert!(FieldDefaultKind::from_u8(3).is_none());
}

// ---------------------------------------------------------------------------
// Primitive roundtrip
// ---------------------------------------------------------------------------

#[test]
fn primitive_roundtrip() {
    let bytes = encode_record(&Schema::Primitive(Scalar::F32));
    let schemas = decode::parse_section(&bytes).unwrap();

    assert_eq!(schemas.len(), 1);
    assert!(matches!(&schemas[0], Schema::Primitive(Scalar::F32)));
}

// ---------------------------------------------------------------------------
// Struct roundtrips
// ---------------------------------------------------------------------------

#[test]
fn named_struct_roundtrip() {
    let bytes = encode_record(&named_struct(
        "Center",
        StructFlags::empty(),
        vec![field("x", prim(Scalar::F32), "x"), field("y", prim(Scalar::F32), "y")],
    ));
    let schemas = decode::parse_section(&bytes).unwrap();

    assert_eq!(schemas.len(), 1);
    match &schemas[0] {
        Schema::Struct(Struct { ident, shape: StructShape::Named(fields), .. }) => {
            assert_eq!(ident, "Center");
            assert_eq!(fields.len(), 2);
            assert_eq!(fields[0].wire_name, "x");
            assert_eq!(fields[1].wire_name, "y");
            assert!(matches!(*fields[0].ty, Schema::Primitive(Scalar::F32)));
        }
        other => panic!("expected named struct, got: {other:?}"),
    }
}

#[test]
fn tuple_struct_roundtrip() {
    let bytes = encode_record(&shaped_struct(
        "Pair",
        StructShape::Tuple(vec![prim(Scalar::F32), prim(Scalar::F64)]),
    ));
    let schemas = decode::parse_section(&bytes).unwrap();

    assert_eq!(schemas.len(), 1);
    match &schemas[0] {
        Schema::Struct(Struct { ident, shape: StructShape::Tuple(types), .. }) => {
            assert_eq!(ident, "Pair");
            assert_eq!(types.len(), 2);
            assert!(matches!(*types[0], Schema::Primitive(Scalar::F32)));
            assert!(matches!(*types[1], Schema::Primitive(Scalar::F64)));
        }
        other => panic!("expected tuple struct, got: {other:?}"),
    }
}

#[test]
fn unit_struct_roundtrip() {
    let bytes = encode_record(&shaped_struct("Empty", StructShape::Unit));
    let schemas = decode::parse_section(&bytes).unwrap();

    assert_eq!(schemas.len(), 1);
    match &schemas[0] {
        Schema::Struct(Struct { ident, shape: StructShape::Unit, .. }) => assert_eq!(ident, "Empty"),
        other => panic!("expected unit struct, got: {other:?}"),
    }
}

// ---------------------------------------------------------------------------
// Aliases
// ---------------------------------------------------------------------------

#[test]
fn field_alias_roundtrip() {
    let mut f = field("name", prim(Scalar::str), "name");
    f.aliases = vec!["nombre".to_string(), "naam".to_string()];
    let bytes = encode_record(&named_struct("Config", StructFlags::empty(), vec![f]));
    let schemas = decode::parse_section(&bytes).unwrap();

    assert_eq!(schemas.len(), 1);
    match &schemas[0] {
        Schema::Struct(Struct { shape: StructShape::Named(fields), .. }) => {
            assert_eq!(fields.len(), 1);
            assert_eq!(fields[0].wire_name, "name");
            assert_eq!(fields[0].aliases, vec!["nombre", "naam"]);
        }
        other => panic!("expected named struct, got: {other:?}"),
    }
}

#[test]
fn variant_alias_roundtrip() {
    let bytes = encode_record(&enumeration(
        "Color",
        EnumFlags::from_bits_retain(EnumFlags::ALL_UNIT),
        Tagging::External,
        vec![
            variant("Red", "red", VariantFlags::empty(), VariantKind::Unit, &["rouge"]),
            variant("Green", "green", VariantFlags::empty(), VariantKind::Unit, &[]),
        ],
    ));
    let schemas = decode::parse_section(&bytes).unwrap();

    assert_eq!(schemas.len(), 1);
    match &schemas[0] {
        Schema::Enum(e) => {
            assert_eq!(e.variants.len(), 2);
            assert_eq!(e.variants[0].wire_name, "red");
            assert_eq!(e.variants[0].all_wire_names, vec!["red", "rouge"]);
            assert_eq!(e.variants[1].wire_name, "green");
            assert_eq!(e.variants[1].all_wire_names, vec!["green"]);
        }
        other => panic!("expected enum, got: {other:?}"),
    }
}

// ---------------------------------------------------------------------------
// Transparent roundtrips
// ---------------------------------------------------------------------------

#[test]
fn transparent_roundtrip() {
    let bytes = encode_record(&transparent("UserId", false, prim(Scalar::str)));
    let schemas = decode::parse_section(&bytes).unwrap();

    assert_eq!(schemas.len(), 1);
    match &schemas[0] {
        Schema::Transparent(t) => {
            assert_eq!(t.ident, "UserId");
            assert!(!t.atomic);
            assert!(matches!(*t.field_ty, Schema::Primitive(Scalar::str)));
        }
        other => panic!("expected transparent, got: {other:?}"),
    }
}

#[test]
fn transparent_atomic_roundtrip() {
    let bytes = encode_record(&transparent("Score", true, prim(Scalar::F64)));
    let schemas = decode::parse_section(&bytes).unwrap();

    assert_eq!(schemas.len(), 1);
    match &schemas[0] {
        Schema::Transparent(t) => {
            assert_eq!(t.ident, "Score");
            assert!(t.atomic);
        }
        other => panic!("expected transparent, got: {other:?}"),
    }
}

// ---------------------------------------------------------------------------
// Enum roundtrips, under each tagging
// ---------------------------------------------------------------------------

#[test]
fn enum_external_unit_roundtrip() {
    let bytes = build_unit_enum_record();
    let schemas = decode::parse_section(&bytes).unwrap();

    assert_eq!(schemas.len(), 1);
    match &schemas[0] {
        Schema::Enum(e) => {
            assert_eq!(e.ident, "Color");
            assert!(e.flags.contains(EnumFlags::ALL_UNIT));
            assert_eq!(e.tagging, Tagging::External);
            assert_eq!(e.variants.len(), 2);
            assert_eq!(e.variants[0].wire_name, "red");
            assert_eq!(e.variants[1].wire_name, "green");
            assert!(matches!(e.variants[0].kind, VariantKind::Unit));
        }
        other => panic!("expected enum, got: {other:?}"),
    }
}

fn internal_event() -> Schema {
    enumeration(
        "Event",
        EnumFlags::empty(),
        Tagging::Internal { tag: "type".to_string() },
        vec![variant(
            "Move",
            "move",
            VariantFlags::empty(),
            VariantKind::Named(vec![field("speed", prim(Scalar::F64), "speed")]),
            &[],
        )],
    )
}

fn adjacent_action() -> Schema {
    enumeration(
        "Action",
        EnumFlags::empty(),
        Tagging::Adjacent { tag: "t".to_string(), content: "data".to_string() },
        vec![variant(
            "Zoom",
            "zoom",
            VariantFlags::empty(),
            VariantKind::Unnamed(vec![prim(Scalar::F64)]),
            &[],
        )],
    )
}

#[test]
fn enum_internal_tagged_roundtrip() {
    let bytes = encode_record(&internal_event());
    let schemas = decode::parse_section(&bytes).unwrap();

    assert_eq!(schemas.len(), 1);
    match &schemas[0] {
        Schema::Enum(e) => {
            assert_eq!(e.ident, "Event");
            assert_eq!(e.tagging, Tagging::Internal { tag: "type".into() });
            assert_eq!(e.variants.len(), 1);
            assert_eq!(e.variants[0].wire_name, "move");
            match &e.variants[0].kind {
                VariantKind::Named(fields) => {
                    assert_eq!(fields.len(), 1);
                    assert_eq!(fields[0].wire_name, "speed");
                }
                other => panic!("expected Named variant, got: {other:?}"),
            }
        }
        other => panic!("expected enum, got: {other:?}"),
    }
}

#[test]
fn enum_adjacent_tagged_roundtrip() {
    let bytes = encode_record(&adjacent_action());
    let schemas = decode::parse_section(&bytes).unwrap();

    assert_eq!(schemas.len(), 1);
    match &schemas[0] {
        Schema::Enum(e) => {
            assert_eq!(e.tagging, Tagging::Adjacent { tag: "t".into(), content: "data".into() });
            match &e.variants[0].kind {
                VariantKind::Unnamed(types) => {
                    assert_eq!(types.len(), 1);
                    assert!(matches!(*types[0], Schema::Primitive(Scalar::F64)));
                }
                other => panic!("expected Unnamed variant, got: {other:?}"),
            }
        }
        other => panic!("expected enum, got: {other:?}"),
    }
}

#[test]
fn enum_untagged_roundtrip() {
    let bytes = encode_record(&enumeration(
        "Value",
        EnumFlags::empty(),
        Tagging::Untagged,
        vec![variant("None", "None", VariantFlags::empty(), VariantKind::Unit, &[])],
    ));
    let schemas = decode::parse_section(&bytes).unwrap();

    assert_eq!(schemas.len(), 1);
    match &schemas[0] {
        Schema::Enum(e) => {
            assert_eq!(e.tagging, Tagging::Untagged);
        }
        other => panic!("expected enum, got: {other:?}"),
    }
}

// ---------------------------------------------------------------------------
// Proxy roundtrips
// ---------------------------------------------------------------------------

fn into_proxy(ident: &str, into: &str) -> Schema {
    Schema::IntoProxy(IntoProxy { ident: ident.to_string(), generics: Vec::new(), into_ty: native(into) })
}

fn from_proxy(ident: &str, proxy: &str, is_try: bool) -> Schema {
    Schema::FromProxy(FromProxy {
        ident: ident.to_string(),
        generics: Vec::new(),
        proxy: native(proxy),
        is_try,
    })
}

#[test]
fn into_proxy_roundtrip() {
    let bytes = encode_record(&into_proxy("MyType", "MyDto"));
    let schemas = decode::parse_section(&bytes).unwrap();

    assert_eq!(schemas.len(), 1);
    match &schemas[0] {
        Schema::IntoProxy(p) => {
            assert_eq!(p.ident, "MyType");
            assert_eq!(*p.into_ty, Schema::Native("MyDto".into()));
        }
        other => panic!("expected IntoProxy, got: {other:?}"),
    }
}

#[test]
fn from_proxy_roundtrip() {
    let bytes = encode_record(&from_proxy("MyModel", "MyProxy", true));
    let schemas = decode::parse_section(&bytes).unwrap();

    assert_eq!(schemas.len(), 1);
    match &schemas[0] {
        Schema::FromProxy(p) => {
            assert_eq!(p.ident, "MyModel");
            assert_eq!(*p.proxy, Schema::Native("MyProxy".into()));
            assert!(p.is_try);
        }
        other => panic!("expected FromProxy, got: {other:?}"),
    }
}

// ---------------------------------------------------------------------------
// Compound type identities
// ---------------------------------------------------------------------------

fn single_field(s: &Schema) -> &Field {
    match s {
        Schema::Struct(st) => match &st.shape {
            StructShape::Named(f) => &f[0],
            other => panic!("expected Named, got: {other:?}"),
        },
        other => panic!("expected struct, got: {other:?}"),
    }
}

#[test]
fn option_ident_roundtrip() {
    let mut f = field("v", Box::new(Schema::Option(prim(Scalar::F32))), "v");
    f.default = FieldDefault::Default;
    let bytes = encode_record(&named_struct("Opt", StructFlags::empty(), vec![f]));
    let schemas = decode::parse_section(&bytes).unwrap();

    assert_eq!(schemas.len(), 1);
    let fd = single_field(&schemas[0]);
    match &*fd.ty {
        Schema::Option(inner) => {
            assert!(matches!(**inner, Schema::Primitive(Scalar::F32)));
        }
        other => panic!("expected Option type, got: {other:?}"),
    }
    assert!(matches!(fd.default, FieldDefault::Default));
}

#[test]
fn seq_ident_roundtrip() {
    let f = field("data", Box::new(Schema::Sequence(prim(Scalar::bool))), "items");
    let bytes = encode_record(&named_struct("List", StructFlags::empty(), vec![f]));
    let schemas = decode::parse_section(&bytes).unwrap();

    let fd = single_field(&schemas[0]);
    assert_eq!(fd.ident, "data");
    assert_eq!(fd.wire_name, "items");
    assert!(matches!(*fd.ty, Schema::Sequence(_)));
}

fn str_to_u32_map() -> Box<Schema> {
    Box::new(Schema::Mapping { key: prim(Scalar::str), value: prim(Scalar::u32) })
}

#[test]
fn map_ident_roundtrip() {
    let f = field("map", str_to_u32_map(), "map");
    let bytes = encode_record(&named_struct("Bag", StructFlags::empty(), vec![f]));
    let schemas = decode::parse_section(&bytes).unwrap();

    match &*single_field(&schemas[0]).ty {
        Schema::Mapping { key, value } => {
            assert!(matches!(**key, Schema::Primitive(Scalar::str)));
            assert!(matches!(**value, Schema::Primitive(Scalar::u32)));
        }
        other => panic!("expected Map type, got: {other:?}"),
    }
}

#[test]
fn box_ident_roundtrip() {
    let f = field("child", Box::new(Schema::Box(native("Tree"))), "child");
    let bytes = encode_record(&named_struct("Tree", StructFlags::empty(), vec![f]));
    let schemas = decode::parse_section(&bytes).unwrap();

    match &*single_field(&schemas[0]).ty {
        Schema::Box(inner) => {
            assert!(matches!(**inner, Schema::Native(ref n) if n == "Tree"));
        }
        other => panic!("expected Box type, got: {other:?}"),
    }
}

#[test]
fn skipped_field_roundtrip() {
    let mut f = field("skipped", Box::new(Schema::Skipped), "skipped");
    f.flags = FieldFlags::from_bits_retain(FieldFlags::SKIP_SER | FieldFlags::SKIP_DE);
    let bytes = encode_record(&named_struct("Skip", StructFlags::empty(), vec![f]));
    let schemas = decode::parse_section(&bytes).unwrap();

    let fd = single_field(&schemas[0]);
    assert!(matches!(*fd.ty, Schema::Skipped));
    assert!(fd.flags.contains(FieldFlags::SKIP_SER | FieldFlags::SKIP_DE));
}

// ---------------------------------------------------------------------------
// Field flags and defaults
// ---------------------------------------------------------------------------

#[test]
fn field_with_default_roundtrip() {
    let mut f = field("n", prim(Scalar::i32), "n");
    f.default = FieldDefault::Default;
    let bytes = encode_record(&named_struct(
        "Default",
        StructFlags::from_bits_retain(StructFlags::CONTAINER_DEFAULT),
        vec![f],
    ));
    let schemas = decode::parse_section(&bytes).unwrap();

    match &schemas[0] {
        Schema::Struct(s) => {
            assert!(s.flags.contains(StructFlags::CONTAINER_DEFAULT));
            let fields = match &s.shape {
                StructShape::Named(f) => f,
                other => panic!("expected Named, got: {other:?}"),
            };
            assert!(matches!(fields[0].default, FieldDefault::Default));
        }
        other => panic!("expected struct, got: {other:?}"),
    }
}

// ---------------------------------------------------------------------------
// TypeScript generation
// ---------------------------------------------------------------------------

#[test]
fn ts_named_struct() {
    let bytes = encode_record(&named_struct(
        "Center",
        StructFlags::empty(),
        vec![field("x", prim(Scalar::F32), "x"), field("y", prim(Scalar::F32), "y")],
    ));
    let ts = generate_ts(&bytes);
    assert!(ts.contains("export interface Center {"), "got:\n{ts}");
    assert!(ts.contains("x: number;"), "got:\n{ts}");
    assert!(ts.contains("y: number;"), "got:\n{ts}");
}

#[test]
fn ts_optional_field() {
    let mut f = field("v", Box::new(Schema::Option(prim(Scalar::str))), "v");
    f.default = FieldDefault::Default;
    let bytes = encode_record(&named_struct("Opt", StructFlags::empty(), vec![f]));
    let ts = generate_ts(&bytes);
    assert!(ts.contains("v?: string | null;"), "got:\n{ts}");
}

#[test]
fn ts_tuple_struct() {
    let bytes = encode_record(&shaped_struct(
        "Pair",
        StructShape::Tuple(vec![prim(Scalar::F32), prim(Scalar::F64)]),
    ));
    let ts = generate_ts(&bytes);
    assert!(ts.contains("export type Pair = [number, number];"), "got:\n{ts}");
}

#[test]
fn ts_unit_struct() {
    let bytes = encode_record(&shaped_struct("Empty", StructShape::Unit));
    let ts = generate_ts(&bytes);
    assert!(ts.contains("export type Empty = null;"), "got:\n{ts}");
}

#[test]
fn ts_transparent() {
    let bytes = encode_record(&transparent("UserId", false, prim(Scalar::str)));
    let ts = generate_ts(&bytes);
    assert!(ts.contains("export type UserId = string;"), "got:\n{ts}");
}

#[test]
fn ts_all_unit_enum() {
    let bytes = build_unit_enum_record();
    let ts = generate_ts(&bytes);
    assert!(ts.contains("export type Color = \"red\" | \"green\";"), "got:\n{ts}");
}

#[test]
fn ts_externally_tagged_enum() {
    let bytes = encode_record(&enumeration(
        "Shape",
        EnumFlags::empty(),
        Tagging::External,
        vec![
            variant("None", "none", VariantFlags::empty(), VariantKind::Unit, &[]),
            variant(
                "Rect",
                "rect",
                VariantFlags::empty(),
                VariantKind::Named(vec![field("width", prim(Scalar::F32), "width")]),
                &[],
            ),
        ],
    ));
    let ts = generate_ts(&bytes);
    assert!(ts.contains("\"none\""), "got:\n{ts}");
    assert!(ts.contains("\"rect\""), "got:\n{ts}");
    assert!(ts.contains("width: number"), "got:\n{ts}");
}

#[test]
fn ts_internally_tagged_enum() {
    let bytes = encode_record(&internal_event());
    let ts = generate_ts(&bytes);
    assert!(ts.contains("type: \"move\""), "got:\n{ts}");
    assert!(ts.contains("speed: number"), "got:\n{ts}");
}

#[test]
fn ts_adjacently_tagged_enum() {
    let bytes = encode_record(&adjacent_action());
    let ts = generate_ts(&bytes);
    assert!(ts.contains("t: \"zoom\""), "got:\n{ts}");
    assert!(ts.contains("data: number"), "got:\n{ts}");
}

#[test]
fn ts_into_proxy() {
    let bytes = encode_record(&into_proxy("MyType", "MyDto"));
    let ts = generate_ts(&bytes);
    assert!(ts.contains("export type MyType = MyDto;"), "got:\n{ts}");
}

#[test]
fn ts_from_proxy() {
    let bytes = encode_record(&from_proxy("MyModel", "MyProxy", false));
    let ts = generate_ts(&bytes);
    assert!(ts.contains("export type MyModel = MyProxy;"), "got:\n{ts}");
}

#[test]
fn ts_skipped_field_omitted() {
    let mut skipped = field("skipped", Box::new(Schema::Skipped), "skipped");
    skipped.flags = FieldFlags::from_bits_retain(FieldFlags::SKIP_SER);
    let kept = field("kept", prim(Scalar::bool), "kept");
    let bytes = encode_record(&named_struct("Half", StructFlags::empty(), vec![skipped, kept]));
    let ts = generate_ts(&bytes);
    assert!(!ts.contains("skipped"), "skipped field should be omitted: {ts}");
    assert!(ts.contains("kept: boolean;"), "got:\n{ts}");
}

#[test]
fn ts_vec_field() {
    let f = field("items", Box::new(Schema::Sequence(prim(Scalar::str))), "items");
    let bytes = encode_record(&named_struct("Items", StructFlags::empty(), vec![f]));
    let ts = generate_ts(&bytes);
    assert!(ts.contains("items: string[];"), "got:\n{ts}");
}

#[test]
fn ts_map_field() {
    let f = field("map", str_to_u32_map(), "map");
    let bytes = encode_record(&named_struct("Bag", StructFlags::empty(), vec![f]));
    let ts = generate_ts(&bytes);
    assert!(ts.contains("map: Record<string, number>;"), "got:\n{ts}");
}

// ---------------------------------------------------------------------------
// Multi-record section
// ---------------------------------------------------------------------------

#[test]
fn multi_record_section() {
    let prim_bytes = encode_record(&Schema::Primitive(Scalar::F32));
    let s_bytes = encode_record(&named_struct(
        "A",
        StructFlags::empty(),
        vec![field("x", prim(Scalar::F32), "x")],
    ));
    let t_bytes = encode_record(&transparent("B", false, prim(Scalar::bool)));

    let records = concat_records(&[&prim_bytes, &s_bytes, &t_bytes]);
    let ts = generate_ts(&records);

    // Both named types are declared; the primitive record is not.
    assert!(ts.contains("export interface A {"), "got:\n{ts}");
    assert!(ts.contains("export type B = boolean;"), "got:\n{ts}");
}

// ---------------------------------------------------------------------------
// Scalar to TypeScript mapping
// ---------------------------------------------------------------------------

#[test]
fn all_scalar_types_map_correctly() {
    let cases: &[(Scalar, &str)] = &[
        (Scalar::bool, "boolean"),
        (Scalar::u8, "number"),
        (Scalar::u16, "number"),
        (Scalar::u32, "number"),
        (Scalar::u64, "number"),
        (Scalar::u128, "number"),
        (Scalar::i8, "number"),
        (Scalar::i16, "number"),
        (Scalar::i32, "number"),
        (Scalar::i64, "number"),
        (Scalar::i128, "number"),
        (Scalar::usize, "number"),
        (Scalar::isize, "number"),
        (Scalar::F32, "number"),
        (Scalar::F64, "number"),
        (Scalar::char, "string"),
        (Scalar::str, "string"),
        (Scalar::Unit, "null"),
        (Scalar::Url, "string"),
        (Scalar::Uuid, "string"),
        (Scalar::Bytes, "Uint8ClampedArray"),
        (Scalar::DateTime, "string"),
        (Scalar::SerdeJsonValue, "any"),
        (Scalar::FractionalIndex, "string"),
    ];

    for &(scalar, expected) in cases {
        // A transparent type that wraps the scalar, named "S00"-"S23".
        let name = format!("S{:02}", scalar.as_u8());
        let bytes = encode_record(&transparent(&name, false, prim(scalar)));
        let ts = generate_ts(&bytes);

        let expected_line = format!("export type {name} = {expected};");
        assert!(ts.contains(&expected_line), "Scalar::{scalar:?}: expected `{expected_line}`, got:\n{ts}");
    }
}

// ---------------------------------------------------------------------------
// Edge cases
// ---------------------------------------------------------------------------

#[test]
fn empty_section_produces_no_output() {
    let ts = generate_ts(&[]);
    assert!(ts.is_empty(), "expected empty, got: {ts}");
}

#[test]
fn truncated_record_returns_error() {
    let mut data = Vec::new();
    data.extend_from_slice(&100u32.to_le_bytes());
    data.extend_from_slice(&[0u8; 5]);
    assert!(decode::parse_section(&data).is_err());
}

#[test]
fn skipped_variant_omitted_from_ts() {
    let bytes = encode_record(&enumeration(
        "Pick",
        EnumFlags::from_bits_retain(EnumFlags::ALL_UNIT),
        Tagging::External,
        vec![
            variant("Yes", "yes", VariantFlags::empty(), VariantKind::Unit, &[]),
            variant(
                "Hidden",
                "hidden",
                VariantFlags::from_bits_retain(VariantFlags::SKIP_SER),
                VariantKind::Unit,
                &[],
            ),
        ],
    ));
    let ts = generate_ts(&bytes);
    assert!(ts.contains("\"yes\""), "got:\n{ts}");
    assert!(!ts.contains("hidden"), "hidden variant should be omitted: {ts}");
}

// ---------------------------------------------------------------------------
// Whole sections
// ---------------------------------------------------------------------------

#[test]
fn section_parses_back_to_its_schemas() {
    let schemas = vec![
        Schema::Primitive(Scalar::Uuid),
        Schema::Native("Other".to_string()),
        named_struct(
            "Point",
            StructFlags::from_bits_retain(StructFlags::DENY_UNKNOWN_FIELDS),
            vec![
                field("x", prim(Scalar::i64), "x"),
                field(
                    "tags",
                    Box::new(Schema::Tuple(vec![prim(Scalar::str), Box::new(Schema::Option(prim(Scalar::u8)))])),
                    "tags",
                ),
            ],
        ),
        internal_event(),
        adjacent_action(),
        transparent("Id", true, native("Uuid")),
        into_proxy("Wrapper", "WrapperDto"),
        from_proxy("Checked", "Raw", true),
    ];
    let bytes = encode_section(&schemas);
    let parsed = decode::parse_section(&bytes).unwrap();
    assert_eq!(parsed, schemas);
}

#[test]
fn declarations_are_sorted_by_name() {
    let bytes = encode_section(&[
        transparent("Zeta", false, prim(Scalar::bool)),
        transparent("Alpha", false, prim(Scalar::str)),
        shaped_struct("Mid", StructShape::Unit),
    ]);
    let ts = generate_ts(&bytes);
    assert_eq!(
        ts,
        "export type Alpha = string;\n\nexport type Mid = null;\n\nexport type Zeta = boolean;\n\n"
    );
}

#[test]
fn declarations_do_not_depend_on_record_order() {
    let a = encode_section(&[
        transparent("B", false, prim(Scalar::bool)),
        transparent("A", false, prim(Scalar::str)),
    ]);
    let b = encode_section(&[
        transparent("A", false, prim(Scalar::str)),
        transparent("B", false, prim(Scalar::bool)),
    ]);
    assert_eq!(generate_ts(&a), generate_ts(&b));
}

#[test]
fn generate_from_section_matches_parse_then_generate() {
    let bytes = encode_record(&internal_event());
    let direct = typescript::generate_from_section(&bytes).unwrap();
    assert_eq!(direct, generate_ts(&bytes));
    assert_eq!(direct, "export type Event = { type: \"move\"; speed: number };\n\n");
}

#[test]
fn generate_from_section_reports_parse_errors() {
    let data = [9u8, 0, 0, 0, 200];
    assert_eq!(
        typescript::generate_from_section(&data),
        Err(decode::Error::TruncatedRecord { offset: 0, declared: 9, remaining: 1 })
    );
}

#[test]
fn a_type_reference_at_the_end_of_a_record_reads_into_the_next() {
    // The section reader reads a record's body from the record's start and
    // then moves to its declared end. A record ending in a two-byte type
    // reference, followed by a record whose length is 65536, has three zero
    // bytes after the reference's first byte: the reference reads as a
    // native name running into the next record.
    let a = encode_record(&transparent("T", false, prim(Scalar::bool)));
    assert_eq!(&a[a.len() - 2..], &[1, 0]);
    let name = "a".repeat(65531);
    let b = encode_record(&Schema::Native(name.clone()));
    assert_eq!(&b[..4], &[0, 0, 1, 0]);

    let xs = decode::parse_section(&a).unwrap();
    assert!(matches!(&xs[0], Schema::Transparent(t) if matches!(&*t.field_ty, Schema::Primitive(Scalar::bool))));
    let ys = decode::parse_section(&b).unwrap();
    assert!(matches!(&ys[0], Schema::Native(n) if *n == name));

    let both = decode::parse_section(&[a.clone(), b.clone()].concat()).unwrap();
    assert_eq!(both.len(), 2);
    assert!(matches!(&both[0], Schema::Transparent(t) if matches!(&*t.field_ty, Schema::Native(n) if n == "\u{1}")));
    assert!(matches!(&both[1], Schema::Native(n) if *n == name));
}

#[test]
fn whole_sections_back_to_back_parse_in_order() {
    // The second section's first byte (the low byte of its first record's
    // length) is not zero, so nothing read at the end of the first reaches
    // into it.
    let a = encode_record(&transparent("T", false, prim(Scalar::bool)));
    let b = encode_record(&transparent("U", true, native("Other")));
    assert_ne!(b[0], 0);
    let xs = decode::parse_section(&a).unwrap();
    let ys = decode::parse_section(&b).unwrap();
    let both = decode::parse_section(&[a.clone(), b.clone()].concat()).unwrap();
    assert_eq!(both, xs.into_iter().chain(ys).collect::<Vec<_>>());
    let ab = typescript::generate(&decode::parse_section(&[a.clone(), b.clone()].concat()).unwrap());
    let ba = typescript::generate(&decode::parse_section(&[b, a].concat()).unwrap());
    assert_eq!(ab, ba);
}
