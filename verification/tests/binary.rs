//! Reading the schema section of a compiled binary, and stripping it.

use object::{Object, ObjectSection};
use typewire::binary::{
    extract_schemas, strip_binary, strip_schema_section, stripped_module, ExtractError, StripOutcome,
};
use typewire::decode::Error;
use typewire::encode::encode_record;
use typewire::{Scalar, Schema, Transparent};

fn leb(mut n: usize) -> Vec<u8> {
    let mut out = Vec::new();
    loop {
        let b = (n & 0x7f) as u8;
        n >>= 7;
        if n == 0 {
            out.push(b);
            return out;
        }
        out.push(b | 0x80);
    }
}

fn custom(name: &str, data: &[u8]) -> Vec<u8> {
    let mut body = leb(name.len());
    body.extend_from_slice(name.as_bytes());
    body.extend_from_slice(data);
    let mut out = vec![0u8];
    out.extend(leb(body.len()));
    out.extend(body);
    out
}

fn wasm(sections: &[Vec<u8>]) -> Vec<u8> {
    let mut out = b"\0asm\x01\0\0\0".to_vec();
    for s in sections {
        out.extend_from_slice(s);
    }
    out
}

fn user_id() -> Schema {
    Schema::Transparent(Transparent {
        ident: "UserId".to_string(),
        generics: Vec::new(),
        atomic: false,
        field_ident: None,
        field_ty: Box::new(Schema::Primitive(Scalar::u64)),
    })
}

#[test]
fn schemas_are_read_from_a_wasm_section() {
    let record = encode_record(&user_id());
    let bin = wasm(&[custom("other", b"xyz"), custom("typewire_schemas", &record)]);
    let schemas = extract_schemas(&bin).unwrap();
    assert_eq!(schemas, vec![user_id()]);
}

#[test]
fn a_binary_without_the_section_has_no_schemas() {
    let bin = wasm(&[custom("other", b"xyz")]);
    assert_eq!(extract_schemas(&bin), Err(ExtractError::NoSection));
}

#[test]
fn a_malformed_section_is_its_decoding_error() {
    let bin = wasm(&[custom("typewire_schemas", &[9, 0, 0, 0, 1])]);
    assert!(matches!(extract_schemas(&bin), Err(ExtractError::Decode(Error::TruncatedRecord { .. }))));
}

#[test]
fn bytes_that_are_no_object_file_are_an_object_error() {
    assert!(matches!(extract_schemas(b"not a binary"), Err(ExtractError::Object(_))));
}

#[test]
fn stripping_removes_only_the_schema_section() {
    let record = encode_record(&user_id());
    let bin = wasm(&[
        custom("typewire_schemas", &record),
        custom("other", b"xyz"),
        custom("typewire_schemas", &record),
    ]);
    let stripped = strip_schema_section(&bin).unwrap();
    assert_eq!(extract_schemas(&stripped), Err(ExtractError::NoSection));
    let obj = object::File::parse(&*stripped).unwrap();
    let other = obj.section_by_name("other").unwrap();
    assert_eq!(other.data().unwrap(), b"xyz");
    assert_eq!(strip_binary(&bin).unwrap(), StripOutcome::Stripped(stripped));
}

#[test]
fn only_wasm_binaries_are_stripped() {
    assert_eq!(strip_binary(b"not a binary"), Ok(StripOutcome::NotWasm));
    assert!(strip_schema_section(b"not a binary").is_err());
}

#[test]
fn the_stripped_module_keeps_the_other_custom_sections_in_order() {
    let bin = wasm(&[
        custom("a", b"1"),
        custom("typewire_schemas", b""),
        custom("b", b"2"),
        custom("typewire_schemas", b"x"),
        custom("c", b"3"),
    ]);
    let m = stripped_module(&bin).unwrap();
    let names: Vec<String> = m.customs.iter().map(|(_, s)| s.name().to_string()).collect();
    assert_eq!(names, vec!["a", "b", "c"]);
}
