//! Decoding errors, declarations in every tagging, naming rules, errors
//! with context, base64 and coverage records.

use typewire::attr::{FieldAttrs, SkipOpts, VariantAttrs};
use typewire::b64::Base64Error;
use typewire::case::{RenameAll, split_words};
use typewire::coverage::{aggregate_lines, merge_coverage, parse_da, parse_lcov_files, FileCoverage};
use typewire::decode::{self, parse_section};
use typewire::encode::{encode_record, encode_section};
use typewire::expand::{field_wire_name, variant_all_names, variant_wire_name};
use typewire::text::decimal_string;
use typewire::typescript::generate;
use typewire::{
    Enum, EnumFlags, Error, Field, FieldDefault, FieldFlags, Scalar, Schema, Struct, StructFlags,
    StructShape, Tagging, Transparent, Variant, VariantFlags, VariantKind, base64_decode,
    base64_encode,
};

fn prim(s: Scalar) -> Box<Schema> {
    Box::new(Schema::Primitive(s))
}

fn field(name: &str, ty: Box<Schema>) -> Field {
    Field {
        ident: name.to_string(),
        ty,
        wire_name: name.to_string(),
        flags: FieldFlags::empty(),
        aliases: Vec::new(),
        default: FieldDefault::NoDefault,
        skip_serializing_if: None,
    }
}

fn variant(wire: &str, kind: VariantKind) -> Variant {
    Variant {
        ident: wire.to_uppercase(),
        wire_name: wire.to_string(),
        all_wire_names: vec![wire.to_string()],
        flags: VariantFlags::empty(),
        kind,
    }
}

fn enum_with(ident: &str, tagging: Tagging, variants: Vec<Variant>) -> Schema {
    Schema::Enum(Enum {
        ident: ident.to_string(),
        generics: Vec::new(),
        flags: EnumFlags::empty(),
        tagging,
        variants,
    })
}

/// One variant of each payload shape.
fn every_kind() -> Vec<Variant> {
    vec![
        variant("a", VariantKind::Unit),
        variant("b", VariantKind::Named(vec![field("x", prim(Scalar::u8))])),
        variant("s", VariantKind::Unnamed(vec![Box::new(Schema::Native("Inner".to_string()))])),
        variant("m", VariantKind::Unnamed(vec![prim(Scalar::u8), prim(Scalar::bool)])),
    ]
}

fn alias(ident: &str, ty: Box<Schema>) -> Schema {
    Schema::Transparent(Transparent {
        ident: ident.to_string(),
        generics: Vec::new(),
        atomic: false,
        field_ident: None,
        field_ty: ty,
    })
}

// ---------------------------------------------------------------------------
// Decoding errors
// ---------------------------------------------------------------------------

/// A section of one record with the given body.
fn record(body: &[u8]) -> Vec<u8> {
    let mut out = (body.len() as u32).to_le_bytes().to_vec();
    out.extend_from_slice(body);
    out
}

/// A length-prefixed string.
fn s(text: &str) -> Vec<u8> {
    let mut out = (text.len() as u32).to_le_bytes().to_vec();
    out.extend_from_slice(text.as_bytes());
    out
}

#[test]
fn unexpected_eof_error() {
    let data = record(&[6]);
    let err = parse_section(&data).unwrap_err();
    assert_eq!(err, decode::Error::UnexpectedEof { needed: 4, remaining: 0 });
    assert_eq!(err.to_string(), "unexpected EOF: needed 4 bytes, 0 remaining");
}

#[test]
fn invalid_tag_error() {
    let err = parse_section(&record(&[12])).unwrap_err();
    assert_eq!(err, decode::Error::InvalidTag(12));
    assert_eq!(err.to_string(), "invalid tag byte: 12");
}

#[test]
fn invalid_scalar_error() {
    let err = parse_section(&record(&[1, 99])).unwrap_err();
    assert_eq!(err, decode::Error::InvalidScalar(99));
    assert_eq!(err.to_string(), "invalid scalar discriminant: 99");
}

#[test]
fn invalid_struct_shape_error() {
    let mut body = vec![6];
    body.extend(s("A"));
    body.extend([0, 7]);
    let err = parse_section(&record(&body)).unwrap_err();
    assert_eq!(err, decode::Error::InvalidStructShape(7));
    assert_eq!(err.to_string(), "invalid struct shape: 7");
}

#[test]
fn invalid_tagging_kind_error() {
    let mut body = vec![8];
    body.extend(s("E"));
    body.extend([0, 9]);
    let err = parse_section(&record(&body)).unwrap_err();
    assert_eq!(err, decode::Error::InvalidTaggingKind(9));
    assert_eq!(err.to_string(), "invalid tagging kind: 9");
}

#[test]
fn invalid_variant_kind_error() {
    let mut body = vec![8];
    body.extend(s("E"));
    body.extend([0, 0]);
    body.extend(s(""));
    body.extend(s(""));
    body.extend(0u32.to_le_bytes());
    body.extend(1u32.to_le_bytes());
    body.extend(s("V"));
    body.extend(s("v"));
    body.extend([0, 5]);
    let err = parse_section(&record(&body)).unwrap_err();
    assert_eq!(err, decode::Error::InvalidVariantKind(5));
    assert_eq!(err.to_string(), "invalid variant kind: 5");
}

#[test]
fn invalid_field_default_error() {
    let mut body = vec![6];
    body.extend(s("S"));
    body.extend([0, 0]);
    body.extend(0u32.to_le_bytes());
    body.extend(1u32.to_le_bytes());
    body.extend(s("f"));
    body.extend([1, 3]);
    body.extend(s("f"));
    body.extend([0, 7]);
    let err = parse_section(&record(&body)).unwrap_err();
    assert_eq!(err, decode::Error::InvalidFieldDefault(7));
    assert_eq!(err.to_string(), "invalid field default kind: 7");
}

#[test]
fn invalid_utf8_error() {
    let err = parse_section(&record(&[0, 1, 0, 0, 0, 0xff])).unwrap_err();
    assert_eq!(err, decode::Error::InvalidUtf8 { offset: 9 });
    assert_eq!(err.to_string(), "invalid UTF-8 at offset 9");
}

#[test]
fn truncated_record_error_message() {
    let err = parse_section(&[100, 0, 0, 0, 1, 2]).unwrap_err();
    assert_eq!(err, decode::Error::TruncatedRecord { offset: 0, declared: 100, remaining: 2 });
    assert_eq!(err.to_string(), "truncated record at offset 0: declared 100 bytes, 2 remaining");
}

#[test]
fn trailing_bytes_shorter_than_a_length_end_the_section() {
    let mut data = encode_record(&Schema::Primitive(Scalar::u8));
    data.extend([7, 7, 7]);
    assert_eq!(parse_section(&data).unwrap(), vec![Schema::Primitive(Scalar::u8)]);
}

#[test]
fn generic_parameters_come_back_as_placeholders() {
    let st = Schema::Struct(Struct {
        ident: "Pair".to_string(),
        generics: vec!["A".to_string(), "B".to_string()],
        flags: StructFlags::empty(),
        shape: StructShape::Unit,
    });
    let parsed = parse_section(&encode_record(&st)).unwrap();
    match &parsed[0] {
        Schema::Struct(s) => assert_eq!(s.generics, vec!["T0", "T1"]),
        other => panic!("expected struct, got: {other:?}"),
    }
}

#[test]
fn encoded_bytes_of_a_primitive_record() {
    assert_eq!(encode_record(&Schema::Primitive(Scalar::F32)), vec![2, 0, 0, 0, 1, 13]);
    assert_eq!(encode_section(&[]), Vec::<u8>::new());
}

// ---------------------------------------------------------------------------
// Declarations
// ---------------------------------------------------------------------------

#[test]
fn externally_tagged_members() {
    let ts = generate(&[enum_with("E", Tagging::External, every_kind())]);
    assert_eq!(
        ts,
        "export type E = \"a\" | { \"b\": { x: number } } | { \"s\": Inner } | { \"m\": [number, boolean] };\n\n"
    );
}

#[test]
fn internally_tagged_members() {
    let ts = generate(&[enum_with("E", Tagging::Internal { tag: "kind".to_string() }, every_kind())]);
    assert_eq!(
        ts,
        "export type E = { kind: \"a\" } | { kind: \"b\"; x: number } | { kind: \"s\" } & Inner | { kind: \"m\" };\n\n"
    );
}

#[test]
fn adjacently_tagged_members() {
    let ts = generate(&[enum_with(
        "E",
        Tagging::Adjacent { tag: "t".to_string(), content: "c".to_string() },
        every_kind(),
    )]);
    assert_eq!(
        ts,
        "export type E = { t: \"a\" } | { t: \"b\"; c: { x: number } } | { t: \"s\"; c: Inner } | { t: \"m\"; c: [number, boolean] };\n\n"
    );
}

#[test]
fn untagged_members() {
    let ts = generate(&[enum_with("E", Tagging::Untagged, every_kind())]);
    assert_eq!(ts, "export type E = null | { x: number } | Inner | [number, boolean];\n\n");
}

#[test]
fn type_references_in_typescript() {
    let seq_of_opt = Box::new(Schema::Sequence(Box::new(Schema::Option(prim(Scalar::str)))));
    let tuple = Box::new(Schema::Tuple(vec![prim(Scalar::str), Box::new(Schema::Option(prim(Scalar::i8)))]));
    let boxed = Box::new(Schema::Box(Box::new(Schema::Native("Node".to_string()))));
    let map = Box::new(Schema::Mapping { key: prim(Scalar::str), value: prim(Scalar::Bytes) });
    let ts = generate(&[
        alias("A", seq_of_opt),
        alias("B", tuple),
        alias("C", boxed),
        alias("D", map),
        alias("E", Box::new(Schema::Skipped)),
        alias("F", prim(Scalar::Unit)),
    ]);
    assert_eq!(
        ts,
        "export type A = (string | null)[];\n\n\
         export type B = [string, number | null];\n\n\
         export type C = Node;\n\n\
         export type D = Record<string, Uint8ClampedArray>;\n\n\
         export type E = unknown;\n\n\
         export type F = null;\n\n"
    );
}

#[test]
fn optional_and_skipped_fields_in_an_interface() {
    let mut with_default = field("d", prim(Scalar::u8));
    with_default.default = FieldDefault::Path("make".to_string());
    let mut skipped = field("gone", prim(Scalar::u8));
    skipped.flags = FieldFlags::from_bits_retain(FieldFlags::SKIP_DE);
    let st = Schema::Struct(Struct {
        ident: "S".to_string(),
        generics: Vec::new(),
        flags: StructFlags::empty(),
        shape: StructShape::Named(vec![field("r", prim(Scalar::char)), with_default, skipped]),
    });
    assert_eq!(generate(&[st]), "export interface S {\n  r: string;\n  d?: number;\n}\n\n");
}

#[test]
fn references_and_unnamed_definitions_get_no_declaration() {
    let ts = generate(&[
        Schema::Native("Named".to_string()),
        Schema::Primitive(Scalar::u8),
        alias("", prim(Scalar::u8)),
    ]);
    assert_eq!(ts, "");
}

#[test]
fn equal_names_keep_their_order() {
    let ts = generate(&[alias("Same", prim(Scalar::u8)), alias("Same", prim(Scalar::str))]);
    assert_eq!(ts, "export type Same = number;\n\nexport type Same = string;\n\n");
}

// ---------------------------------------------------------------------------
// Naming
// ---------------------------------------------------------------------------

#[test]
fn rename_all_values() {
    assert_eq!(RenameAll::parse("lowercase"), Some(RenameAll::Lower));
    assert_eq!(RenameAll::parse("UPPERCASE"), Some(RenameAll::Upper));
    assert_eq!(RenameAll::parse("PascalCase"), Some(RenameAll::Pascal));
    assert_eq!(RenameAll::parse("camelCase"), Some(RenameAll::Camel));
    assert_eq!(RenameAll::parse("snake_case"), Some(RenameAll::Snake));
    assert_eq!(RenameAll::parse("SCREAMING_SNAKE_CASE"), Some(RenameAll::ScreamingSnake));
    assert_eq!(RenameAll::parse("kebab-case"), Some(RenameAll::Kebab));
    assert_eq!(RenameAll::parse("SCREAMING-KEBAB-CASE"), Some(RenameAll::ScreamingKebab));
    assert_eq!(RenameAll::parse("Camelcase"), None);
}

#[test]
fn words_of_identifiers() {
    assert_eq!(split_words("HTTPSPort"), vec!["HTTPS", "Port"]);
    assert_eq!(split_words("userName"), vec!["user", "Name"]);
    assert_eq!(split_words("user_name"), vec!["user", "name"]);
    assert_eq!(split_words("__a__b_"), vec!["a", "b"]);
    assert_eq!(split_words("ID"), vec!["ID"]);
    assert_eq!(split_words(""), Vec::<String>::new());
}

#[test]
fn case_conventions() {
    assert_eq!(RenameAll::Camel.apply("user_name"), "userName");
    assert_eq!(RenameAll::Pascal.apply("user_name"), "UserName");
    assert_eq!(RenameAll::Snake.apply("UserName"), "user_name");
    assert_eq!(RenameAll::ScreamingSnake.apply("UserName"), "USER_NAME");
    assert_eq!(RenameAll::Kebab.apply("HTTPSPort"), "https-port");
    assert_eq!(RenameAll::ScreamingKebab.apply("user_name"), "USER-NAME");
    assert_eq!(RenameAll::Lower.apply("UserName"), "username");
    assert_eq!(RenameAll::Upper.apply("UserName"), "USERNAME");
    assert_eq!(RenameAll::Camel.apply("HTTPSPort"), "httpsPort");
}

#[test]
fn wire_names() {
    let plain = FieldAttrs::default();
    assert_eq!(field_wire_name(Some("user_id"), &plain, None), "user_id");
    assert_eq!(field_wire_name(Some("user_id"), &plain, Some(RenameAll::Camel)), "userId");
    assert_eq!(field_wire_name(None, &plain, None), "0");
    let renamed = FieldAttrs { rename: Some("uid".to_string()), ..FieldAttrs::default() };
    assert_eq!(field_wire_name(Some("user_id"), &renamed, Some(RenameAll::Camel)), "uid");

    let v = VariantAttrs { aliases: vec!["old".to_string()], ..VariantAttrs::default() };
    assert_eq!(variant_wire_name("BigBox", &v, Some(RenameAll::Kebab)), "big-box");
    assert_eq!(variant_wire_name("BigBox", &v, None), "BigBox");
    assert_eq!(variant_all_names("big-box", &v), vec!["big-box", "old"]);
}

#[test]
fn skip_options() {
    let f = FieldAttrs { skip: SkipOpts { all: true, serializing: false, deserializing: false }, ..FieldAttrs::default() };
    assert!(f.skip_serializing() && f.skip_deserializing());
    let v = VariantAttrs { skip: SkipOpts { all: false, serializing: true, deserializing: false }, ..VariantAttrs::default() };
    assert!(v.skip_serializing() && !v.skip_deserializing());
}

// ---------------------------------------------------------------------------
// Errors with context
// ---------------------------------------------------------------------------

#[test]
fn error_context_path() {
    let err = Error::UnexpectedType { expected: "number" };
    let wrapped = err.in_context("age").in_context("User");
    assert_eq!(wrapped.to_string(), "in `User`: in `age`: expected number");

    let err = Error::MissingField { field: "name" }.in_context("inner").in_context("Outer");
    assert_eq!(err.to_string(), "in `Outer`: in `inner`: missing field `name`");
}

#[test]
fn error_messages() {
    assert_eq!(Error::UnknownVariant { variant: "x".to_string() }.to_string(), "unknown variant `x`");
    assert_eq!(Error::InvalidValue { message: "bad".to_string() }.to_string(), "invalid value: bad");
    assert_eq!(Error::OutOfRange.to_string(), "out of range");
    assert_eq!(Error::NoMatchingVariant.to_string(), "no matching variant");
    assert_eq!(Error::Custom("free".to_string()).to_string(), "free");
}

// ---------------------------------------------------------------------------
// Base64
// ---------------------------------------------------------------------------

#[test]
fn base64_encode_works() {
    assert_eq!(base64_encode(&[72, 101, 108, 108, 111]), "SGVsbG8=");
    assert_eq!(base64_encode(&[]), "");
    assert_eq!(base64_encode(&[0xfb, 0xff]), "+/8=");
}

#[test]
fn base64_decodes_what_it_encodes() {
    for n in 0..12u8 {
        let bytes: Vec<u8> = (0..n).map(|i| i.wrapping_mul(37).wrapping_add(200)).collect();
        assert_eq!(base64_decode(&base64_encode(&bytes)), Ok(bytes));
    }
}

#[test]
fn base64_decode_errors() {
    assert_eq!(base64_decode("SGVsbG8"), Err(Base64Error::InvalidPadding));
    assert!(base64_decode("S$Vs").is_err());
}

// ---------------------------------------------------------------------------
// Coverage records
// ---------------------------------------------------------------------------

#[test]
fn da_records() {
    assert_eq!(parse_da("12,3"), Some((12, 3)));
    assert_eq!(parse_da("+5,0"), Some((5, 0)));
    assert_eq!(parse_da("12"), None);
    assert_eq!(parse_da("a,1"), None);
    assert_eq!(parse_da("1,2,3"), None);
    assert_eq!(parse_da(",1"), None);
    assert_eq!(parse_da("4294967295,18446744073709551615"), Some((4294967295, 18446744073709551615)));
    assert_eq!(parse_da("4294967296,1"), None);
    assert_eq!(parse_da("1,18446744073709551616"), None);
}

#[test]
fn line_totals() {
    assert_eq!(aggregate_lines(&vec![vec![0, 1, 2], vec![], vec![5]]), (3, 4));
    assert_eq!(aggregate_lines(&vec![]), (0, 0));
}

#[test]
fn decimal_text() {
    assert_eq!(decimal_string(0), "0");
    assert_eq!(decimal_string(907), "907");
    assert_eq!(decimal_string(u64::MAX), "18446744073709551615");
}

/// The section bytes of a unit struct, written out by hand.
const UNIT_STRUCT_RECORD: [u8; 23] = [
    19, 0, 0, 0, // record length
    6, // struct
    4, 0, 0, 0, b'U', b'n', b'i', b't', // ident
    0, // flags
    2, // unit shape
    0, 0, 0, 0, // generics
    0, 0, 0, 0, // fields
];

#[test]
fn literal_bytes_decode_a_unit_struct() {
    let expected = Schema::Struct(Struct {
        ident: "Unit".to_string(),
        generics: Vec::new(),
        flags: StructFlags::empty(),
        shape: StructShape::Unit,
    });
    assert_eq!(parse_section(&UNIT_STRUCT_RECORD).unwrap(), vec![expected]);
}

#[test]
fn literal_bytes_decode_a_named_struct_and_a_primitive() {
    let mut data: Vec<u8> = vec![
        38, 0, 0, 0, // record length
        6, // struct
        5, 0, 0, 0, b'P', b'o', b'i', b'n', b't', // ident
        0, // flags
        0, // named shape
        0, 0, 0, 0, // generics
        1, 0, 0, 0, // one field
        1, 0, 0, 0, b'x', // field ident
        1, 3, // u32
        1, 0, 0, 0, b'X', // wire name
        1, 2, // skip_serializing flag, path default
        0, 0, 0, 0, // no aliases
    ];
    data.extend_from_slice(&[2, 0, 0, 0, 1, 0]); // a bool primitive record
    let mut x = field("x", prim(Scalar::u32));
    x.wire_name = "X".to_string();
    x.flags = FieldFlags::from_bits_retain(FieldFlags::SKIP_SER);
    // the format keeps only the kind of a default: a path default reads
    // back as `Default`
    x.default = FieldDefault::Default;
    let expected = vec![
        Schema::Struct(Struct {
            ident: "Point".to_string(),
            generics: Vec::new(),
            flags: StructFlags::empty(),
            shape: StructShape::Named(vec![x]),
        }),
        Schema::Primitive(Scalar::bool),
    ];
    assert_eq!(parse_section(&data).unwrap(), expected);
}

#[test]
fn literal_sections_concatenate() {
    let mut data = UNIT_STRUCT_RECORD.to_vec();
    data.extend_from_slice(&UNIT_STRUCT_RECORD);
    assert_eq!(parse_section(&data).unwrap().len(), 2);
    assert_eq!(parse_section(&data).unwrap()[1], parse_section(&UNIT_STRUCT_RECORD).unwrap()[0]);
}

#[test]
fn merged_coverage_takes_the_larger_count_of_each_line() {
    let file = |name: &str, lines: &[(u32, u64)]| FileCoverage { file: name.to_string(), lines: lines.to_vec() };
    let native = vec![file("src/lib.rs", &[(1, 3), (2, 0), (5, 0)]), file("src/native.rs", &[(1, 1)])];
    let wasm = vec![file("src/lib.rs", &[(2, 4), (5, 0), (7, 2)]), file("src/wasm.rs", &[(3, 0)])];
    let merged = merge_coverage(native, &wasm);
    assert_eq!(
        merged,
        vec![
            file("src/lib.rs", &[(1, 3), (2, 4), (5, 0), (7, 2)]),
            file("src/native.rs", &[(1, 1)]),
            file("src/wasm.rs", &[(3, 0)]),
        ]
    );
    let counts: Vec<Vec<u64>> = merged.iter().map(|f| f.lines.iter().map(|l| l.1).collect()).collect();
    assert_eq!(aggregate_lines(&counts), (4, 6));
}

#[test]
fn lcov_report_gives_the_counts_of_each_file() {
    let lcov = "TN:\nSF:/src/a.rs\nDA:10,1\nDA:11,0\n  DA:12,5  \r\nDA:bad\nend_of_record\nDA:99,9\nSF:/src/b.rs\nDA:3,2\nDA:3,7\nend_of_record";
    let files = parse_lcov_files(lcov);
    assert_eq!(
        files,
        vec![
            FileCoverage { file: "/src/a.rs".to_string(), lines: vec![(10, 1), (11, 0), (12, 5)] },
            FileCoverage { file: "/src/b.rs".to_string(), lines: vec![(3, 7)] },
        ]
    );
    let counts: Vec<Vec<u64>> = files.iter().map(|f| f.lines.iter().map(|l| l.1).collect()).collect();
    assert_eq!(aggregate_lines(&counts), (3, 4));
    assert!(parse_lcov_files("").is_empty());
}
