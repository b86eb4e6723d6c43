//! The generated JavaScript conversions, on concrete schemas.

use typewire::item::{
    Enum, Field, FromBody, FromProxy, GenericParam, Generics, IntoProxy, Item, Struct, StructShape,
    Transparent, TypeShape, Variant, VariantKind,
};
use typewire::coded_source::generate_schema_and_section;
use typewire::expand::expand;
use typewire::wasm::{
    enum_from_js_body, enum_patch_js_fn, enum_to_js_body, struct_to_js_body, untagged_from_js,
    enum_js_bindings, extra_impls, js_bindings_for_schema, struct_js_bindings,
    WasmCodegen, adj_tagged_from_js, adj_tagged_patch_js, ext_tagged_from_js,
    ext_tagged_patch_js, int_tagged_from_js, int_tagged_patch_js, js_enum_variant_constructs,
    struct_from_js_body, struct_patch_js_fn,
};
use typewire::{EnumFlags, FieldDefault, FieldFlags, StructFlags, Tagging, VariantFlags};

fn ty(text: &str) -> String {
    text.to_string()
}

fn no_generics() -> Generics {
    Generics::default()
}

fn type_param(ident: &str, bounds: &str) -> GenericParam {
    GenericParam::Type { ident: ident.to_string(), bounds: bounds.to_string() }
}

fn field(name: &str, ty: String) -> Field {
    Field {
        ident: name.to_string(),
        ty,
        wire_name: name.to_string(),
        flags: FieldFlags::empty(),
        aliases: Vec::new(),
        default: FieldDefault::NoDefault,
        skip_serializing_if: None,
    }
}

fn with_flags(mut f: Field, bits: u8) -> Field {
    f.flags = FieldFlags::from_bits_retain(bits);
    f
}

fn variant(ident: &str, wire: &str, kind: VariantKind) -> Variant {
    Variant {
        ident: ident.to_string(),
        wire_name: wire.to_string(),
        all_wire_names: vec![wire.to_string()],
        flags: VariantFlags::empty(),
        kind,
    }
}

fn structure(ident: &str, flags: u8, shape: StructShape) -> Struct {
    Struct {
        ident: ident.to_string(),
        generics: no_generics(),
        flags: StructFlags::from_bits_retain(flags),
        shape,
    }
}

fn enumeration(ident: &str, flags: u8, tagging: Tagging, variants: Vec<Variant>) -> Enum {
    Enum {
        ident: ident.to_string(),
        generics: no_generics(),
        flags: EnumFlags::from_bits_retain(flags),
        tagging,
        variants,
    }
}

const MISSING_X: &str = "let x = { let v = __arr.get(0u32); if !v.is_undefined() { <u32 as ::typewire::Typewire>::from_js(v).map_err(|e| e.in_context(\"x\"))? } else { match <u32 as ::typewire::Typewire>::or_default() { Some(d) => d, None => return Err(::typewire::Error::MissingField { field: \"x\" }), } } };\n";

#[test]
fn cfg_predicate_is_wasm32() {
    assert_eq!(WasmCodegen::cfg_predicate(), "target_arch = \"wasm32\"");
}

#[test]
fn struct_from_js_reads_each_slot() {
    let mut y = field("y", ty("f64"));
    y.default = FieldDefault::Default;
    let mut z = with_flags(field("z", ty("bool")), 3);
    z.default = FieldDefault::Path("mk".to_string());
    let s = structure(
        "Point",
        StructFlags::DENY_UNKNOWN_FIELDS,
        StructShape::Named(vec![field("x", ty("u32")), y, z]),
    );
    let expected = String::from("let __arr = __tw_Point_destruct(&value);\n")
        + "if let Some(__unknown) = __tw_Point_check_keys(&value).as_string() { return Err(::typewire::Error::InvalidValue { message: ::std::format!(\"unknown field `{__unknown}`\") }); }\n"
        + MISSING_X
        + "let y = { let v = __arr.get(1u32); if !v.is_undefined() && !v.is_null() { <f64 as ::typewire::Typewire>::from_js(v).map_err(|e| e.in_context(\"y\"))? } else { ::core::default::Default::default() } };\n"
        + "let z = mk();\n"
        + "Ok(Point { x, y, z, })\n";
    assert_eq!(struct_from_js_body(&s), expected);
}

#[test]
fn skipped_deserialization_keeps_its_slot() {
    // `a` is skipped in deserialization only: it still holds slot 0, so `x`
    // reads slot 1.
    let a = with_flags(field("a", ty("u8")), FieldFlags::SKIP_DE);
    let s = structure(
        "S",
        0,
        StructShape::Named(vec![a, field("x", ty("u32"))]),
    );
    let body = struct_from_js_body(&s);
    assert!(body.contains("let a = ::core::default::Default::default();\n"), "{body}");
    assert!(body.contains("let x = { let v = __arr.get(1u32);"), "{body}");
    assert!(!body.contains("check_keys"), "{body}");
}

#[test]
fn struct_from_js_tuple_and_unit() {
    let pair = structure(
        "Pair",
        0,
        StructShape::Tuple(vec![ty("u8"), ty("String")]),
    );
    assert_eq!(
        struct_from_js_body(&pair),
        "let arr: ::js_sys::Array = value.try_into().map_err(|_| ::typewire::Error::UnexpectedType { expected: \"array\" })?;\n\
         let __field0 = <u8 as ::typewire::Typewire>::from_js(arr.get(0u32))?;\n\
         let __field1 = <String as ::typewire::Typewire>::from_js(arr.get(1u32))?;\n\
         Ok(Pair(__field0, __field1, ))\n"
    );
    let unit = structure("Empty", 0, StructShape::Unit);
    assert_eq!(struct_from_js_body(&unit), "Ok(Empty)\n");
}

#[test]
fn declared_field_types_are_written_as_declared() {
    let s = structure(
        "W",
        0,
        StructShape::Named(vec![
            field("a", ty("BTreeMap<String, Wrapper<T>>")),
            field("b", ty("IndexSet<u8>")),
        ]),
    );
    let body = struct_from_js_body(&s);
    assert!(
        body.contains("<BTreeMap<String, Wrapper<T>> as ::typewire::Typewire>::from_js(v)"),
        "{body}"
    );
    assert!(
        body.contains("match <IndexSet<u8> as ::typewire::Typewire>::or_default()"),
        "{body}"
    );
    let t = structure("P", 0, StructShape::Tuple(vec![ty("Option<Vec<(i64, T)>>")]));
    assert!(
        struct_from_js_body(&t).contains("let __field0 = <Option<Vec<(i64, T)>> as ::typewire::Typewire>::from_js(arr.get(0u32))?;"),
    );
}

#[test]
fn field_conversions_follow_the_flags() {
    let mut b = with_flags(field("b", ty("Vec<u8>")), FieldFlags::BASE64);
    b.wire_name = "bee".to_string();
    let d = with_flags(field("d", ty("u32")), FieldFlags::DISPLAY);
    let l = with_flags(field("l", ty("u32")), FieldFlags::LENIENT);
    let s = structure("F", 0, StructShape::Named(vec![b, d, l]));
    let body = struct_from_js_body(&s);
    assert!(body.contains("::typewire::base64_decode(&s)"), "{body}");
    assert!(body.contains("e.in_context(\"bee\")"), "{body}");
    assert!(body.contains("s.parse::<u32>()"), "{body}");
    assert!(
        body.contains("<u32 as ::typewire::Typewire>::from_js_lenient(v, \"l\").map_err(|e| e.in_context(\"l\"))?"),
        "{body}"
    );
}

#[test]
fn wire_names_are_escaped_in_literals() {
    let mut f = field("q", ty("u8"));
    f.wire_name = "a\"b\\c".to_string();
    let s = structure("Q", 0, StructShape::Named(vec![f]));
    let body = struct_from_js_body(&s);
    assert!(body.contains("MissingField { field: \"a\\\"b\\\\c\" }"), "{body}");
}

#[test]
fn struct_patch_js_forms() {
    let atomic = structure("A", StructFlags::ATOMIC, StructShape::Unit);
    assert_eq!(
        struct_patch_js_fn(&atomic),
        "fn patch_js(&self, old: &::wasm_bindgen::JsValue, set: impl FnOnce(::wasm_bindgen::JsValue)) {\n\
         match Self::from_js(old.clone()) { Ok(ref old_val) if self == old_val => {} _ => set(self.to_js()), }\n}\n"
    );
    let named = structure(
        "S",
        0,
        StructShape::Named(vec![
            field("a", ty("u8")),
            with_flags(field("gone", ty("u8")), 3),
            with_flags(field("b", ty("Vec<u8>")), FieldFlags::BASE64),
        ]),
    );
    assert_eq!(
        struct_patch_js_fn(&named),
        "fn patch_js(&self, old: &::wasm_bindgen::JsValue, _set: impl FnOnce(::wasm_bindgen::JsValue)) {\n\
         if old.is_undefined() || old.is_null() { _set(self.to_js()); return; }\n\
         let __arr = __tw_S_destruct(old);\n\
         ::typewire::Typewire::patch_js(&self.a, &__arr.get(0u32), |v| __tw_S_set_a(old, v));\n\
         { let __old_v = __arr.get(1u32); let __new_v = ::wasm_bindgen::JsValue::from_str(&::typewire::base64_encode(&self.b)); if __old_v != __new_v { __tw_S_set_b(old, __new_v); } }\n\
         }\n"
    );
    let tuple = structure("T", 0, StructShape::Tuple(vec![ty("u8"), ty("u8")]));
    assert_eq!(
        struct_patch_js_fn(&tuple),
        "fn patch_js(&self, old: &::wasm_bindgen::JsValue, _set: impl FnOnce(::wasm_bindgen::JsValue)) {\n\
         use ::wasm_bindgen::JsCast as _;\n\
         let Some(__arr) = old.dyn_ref::<::js_sys::Array>() else { _set(self.to_js()); return; };\n\
         self.0.patch_js(&__arr.get(0u32), |v| __arr.set(0u32, v));\n\
         self.1.patch_js(&__arr.get(1u32), |v| __arr.set(1u32, v));\n\
         }\n"
    );
    let unit = structure("U", 0, StructShape::Unit);
    assert_eq!(
        struct_patch_js_fn(&unit),
        "fn patch_js(&self, _old: &::wasm_bindgen::JsValue, _set: impl FnOnce(::wasm_bindgen::JsValue)) {\n}\n"
    );
}

#[test]
fn ext_from_js_unit_enum_matches_every_wire_name() {
    let mut red = variant("Red", "red", VariantKind::Unit);
    red.all_wire_names.push("crimson".to_string());
    let e = enumeration(
        "Color",
        EnumFlags::ALL_UNIT,
        Tagging::External,
        vec![red, variant("Green", "green", VariantKind::Unit)],
    );
    assert_eq!(
        ext_tagged_from_js(&e),
        "let s = value.as_string().ok_or(::typewire::Error::UnexpectedType { expected: \"string\" })?;\n\
         match s.as_str() {\n\
         \"red\" | \"crimson\" => Ok(Color::Red),\n\
         \"green\" => Ok(Color::Green),\n\
         other => Err(::typewire::Error::UnknownVariant { variant: other.into() }),\n\
         }\n"
    );
}

#[test]
fn ext_from_js_other_variant_catches_the_rest() {
    let mut unknown = variant("Unknown", "unknown", VariantKind::Unit);
    unknown.flags = VariantFlags::from_bits_retain(VariantFlags::OTHER);
    let e = enumeration(
        "Color",
        EnumFlags::ALL_UNIT,
        Tagging::External,
        vec![variant("Red", "red", VariantKind::Unit), unknown],
    );
    assert_eq!(
        ext_tagged_from_js(&e),
        "if let Some(s) = value.as_string() { match s.as_str() {\n\
         \"red\" => return Ok(Color::Red),\n\
         _ => {}\n\
         } }\n\
         Ok(Color::Unknown)\n"
    );
}

#[test]
fn ext_from_js_dispatches_by_index() {
    let e = enumeration(
        "Shape",
        0,
        Tagging::External,
        vec![
            variant("Circle", "circle", VariantKind::Unnamed(vec![ty("f64")])),
            variant("Empty", "empty", VariantKind::Unit),
        ],
    );
    assert_eq!(
        ext_tagged_from_js(&e),
        "match __tw_Shape_dispatch(&value) {\n\
         0i32 => { let __c = __tw_Shape_content_Circle(&value); let inner = <f64 as ::typewire::Typewire>::from_js(__c)?; return Ok(Shape::Circle(inner)); }\n\
         1i32 => return Ok(Shape::Empty),\n\
         _ => Err(::typewire::Error::UnknownVariant { variant: value.as_string().unwrap_or_default() }),\n\
         }\n"
    );
}

#[test]
fn ext_from_js_untagged_variant_is_tried_by_content() {
    let mut plain = variant("Plain", "plain", VariantKind::Named(vec![{
        let mut f = field("x", ty("u32"));
        f.aliases.push("ex".to_string());
        f
    }]));
    plain.flags = VariantFlags::from_bits_retain(VariantFlags::UNTAGGED);
    let e = enumeration(
        "M",
        0,
        Tagging::External,
        vec![variant("A", "a", VariantKind::Unit), plain],
    );
    let body = ext_tagged_from_js(&e);
    assert!(body.starts_with("let __idx = __tw_M_dispatch(&value);\nmatch __idx {\n0i32 => return Ok(M::A),\n_ => {}\n}\n"), "{body}");
    assert!(body.contains("let __obj = &value;\n"), "{body}");
    assert!(body.contains("__val = ::js_sys::Reflect::get(__obj, &::wasm_bindgen::JsValue::from_str(\"x\"))"), "{body}");
    assert!(body.contains("__val = ::js_sys::Reflect::get(__obj, &::wasm_bindgen::JsValue::from_str(\"ex\"))"), "{body}");
    assert!(body.contains("Ok(M::Plain { x, })"), "{body}");
    assert!(body.ends_with("Err(::typewire::Error::NoMatchingVariant)\n"), "{body}");
}

#[test]
fn ext_patch_js_compares_dispatch_indices() {
    let mut skipped = variant("Hidden", "hidden", VariantKind::Unit);
    skipped.flags = VariantFlags::from_bits_retain(VariantFlags::SKIP_DE);
    let e = enumeration(
        "E",
        0,
        Tagging::External,
        vec![
            skipped,
            variant("P", "p", VariantKind::Named(vec![field("x", ty("u32"))])),
            variant("Q", "q", VariantKind::Unnamed(vec![ty("u8"), ty("u8")])),
        ],
    );
    assert_eq!(
        ext_tagged_patch_js(&e),
        "fn patch_js(&self, old: &::wasm_bindgen::JsValue, _set: impl FnOnce(::wasm_bindgen::JsValue)) {\n\
         if old.is_undefined() || old.is_null() { _set(self.to_js()); return; }\n\
         let __old_idx = __tw_E_dispatch(old);\n\
         match self {\n\
         E::Hidden => { if true { _set(self.to_js()); } }\n\
         E::P { x, .. } => { if __old_idx != 0i32 { _set(self.to_js()); } else { let __content = __tw_E_content_P(old); let __varr = __tw_E_destruct_P(&__content);\n\
         ::typewire::Typewire::patch_js(x, &__varr.get(0u32), |v| __tw_E_set_P_x(&__content, v));\n\
         } }\n\
         E::Q(..) => { _set(self.to_js()); }\n\
         #[expect(unreachable_patterns, reason = \"wasm-only variants may be skipped\")]\n\
         _ => { _set(self.to_js()); }\n\
         }\n\
         }\n"
    );
}

#[test]
fn int_from_js_reports_the_tag() {
    let e = enumeration(
        "Ev",
        0,
        Tagging::Internal { tag: "type".to_string() },
        vec![variant("Move", "move", VariantKind::Named(vec![field("x", ty("u32"))]))],
    );
    let expected = String::from("match __tw_Ev_dispatch(&value) {\n0i32 => {\nlet __arr = __tw_Ev_destruct_Move(&value);\n")
        + MISSING_X
        + "return Ok(Ev::Move { x, }); }\n_ => {}\n}\n"
        + "{ let __tag_str = ::js_sys::Reflect::get(&value, &::wasm_bindgen::JsValue::from_str(\"type\")).ok().and_then(|v| v.as_string());\n"
        + "match __tag_str { Some(t) => Err(::typewire::Error::UnknownVariant { variant: t }), None => Err(::typewire::Error::MissingField { field: \"type\" }), } }\n";
    assert_eq!(int_tagged_from_js(&e, "type"), expected);
}

#[test]
fn int_from_js_unit_enum_reads_the_tag_field() {
    let e = enumeration(
        "K",
        EnumFlags::ALL_UNIT,
        Tagging::Internal { tag: "kind".to_string() },
        vec![variant("A", "a", VariantKind::Unit)],
    );
    assert_eq!(
        int_tagged_from_js(&e, "kind"),
        "let tag_val = ::js_sys::Reflect::get(&value, &::wasm_bindgen::JsValue::from_str(\"kind\")).ok().and_then(|v| v.as_string()).ok_or(::typewire::Error::MissingField { field: \"kind\" })?;\n\
         match tag_val.as_str() {\n\
         \"a\" => Ok(K::A),\n\
         other => Err(::typewire::Error::UnknownVariant { variant: other.into() }),\n\
         }\n"
    );
}

#[test]
fn int_patch_js_writes_into_the_old_object() {
    let e = enumeration(
        "Ev",
        0,
        Tagging::Internal { tag: "type".to_string() },
        vec![
            variant("Move", "move", VariantKind::Named(vec![field("x", ty("u32"))])),
            variant("Wrap", "wrap", VariantKind::Unnamed(vec![ty("Inner")])),
        ],
    );
    let body = int_tagged_patch_js(&e);
    assert!(
        body.contains("Ev::Move { x, .. } => { if __old_idx != 0i32 { _set(self.to_js()); } else { let __varr = __tw_Ev_destruct_Move(old);\n::typewire::Typewire::patch_js(x, &__varr.get(0u32), |v| __tw_Ev_set_Move_x(old, v));\n} }\n"),
        "{body}"
    );
    assert!(
        body.contains("Ev::Wrap(__inner) => { if __old_idx != 1i32 { _set(self.to_js()); } else { <Inner as ::typewire::Typewire>::patch_js(__inner, old, |v| _set(v)); } }\n"),
        "{body}"
    );
}

#[test]
fn adj_from_js_reads_the_content() {
    let e = enumeration(
        "Msg",
        0,
        Tagging::Adjacent { tag: "t".to_string(), content: "c".to_string() },
        vec![
            variant("Ping", "ping", VariantKind::Unit),
            variant("Text", "text", VariantKind::Unnamed(vec![ty("String")])),
        ],
    );
    assert_eq!(
        adj_tagged_from_js(&e, "t"),
        "match __tw_Msg_dispatch(&value) {\n\
         0i32 => Ok(Msg::Ping),\n\
         1i32 => { let __c = __tw_Msg_content(&value); let inner = <String as ::typewire::Typewire>::from_js(__c)?; Ok(Msg::Text(inner)) }\n\
         _ => { let __tag_str = ::js_sys::Reflect::get(&value, &::wasm_bindgen::JsValue::from_str(\"t\")).ok().and_then(|v| v.as_string());\n\
         match __tag_str { Some(t) => Err(::typewire::Error::UnknownVariant { variant: t }), None => Err(::typewire::Error::MissingField { field: \"t\" }), } }\n\
         }\n"
    );
}

#[test]
fn adj_patch_js_sets_the_content_key() {
    let e = enumeration(
        "Msg",
        0,
        Tagging::Adjacent { tag: "t".to_string(), content: "c".to_string() },
        vec![variant("Text", "text", VariantKind::Unnamed(vec![ty("String")]))],
    );
    let body = adj_tagged_patch_js(&e, "c");
    assert!(
        body.contains("Msg::Text(__inner) => { if __old_idx != 0i32 { _set(self.to_js()); } else { let __old_content = __tw_Msg_content(old); <String as ::typewire::Typewire>::patch_js(__inner, &__old_content, |v| { let _ = ::js_sys::Reflect::set(old, &::wasm_bindgen::JsValue::from_str(\"c\"), &v); }); } }\n"),
        "{body}"
    );
}

#[test]
fn variant_constructors_in_javascript() {
    let mut x = field("x", ty("u8"));
    x.skip_serializing_if = Some("is_zero".to_string());
    let variants = vec![
        variant("A", "a", VariantKind::Unit),
        variant("B", "b", VariantKind::Unnamed(vec![ty("u8")])),
        variant("C", "c", VariantKind::Named(vec![x, field("y", ty("u8"))])),
    ];
    let tagging = Tagging::Adjacent { tag: "t".to_string(), content: "v".to_string() };
    let mut js = String::new();
    let mut decls = String::new();
    js_enum_variant_constructs(&mut js, &mut decls, "E", &variants, &tagging);
    assert_eq!(
        js,
        "export function __tw_E_construct_A(){return{\"t\":\"a\"}}\n\
         export function __tw_E_construct_B(c){return{\"t\":\"b\",\"v\":c}}\n\
         export function __tw_E_construct_C(p0,p1){const o={};if(p0!==undefined)o[\"x\"]=p0;o[\"y\"]=p1;return{\"t\":\"c\",\"v\":o}}\n"
    );
    assert_eq!(
        decls,
        "fn __tw_E_construct_A() -> ::js_sys::Object;\n\
         fn __tw_E_construct_B(c: ::wasm_bindgen::JsValue) -> ::js_sys::Object;\n\
         fn __tw_E_construct_C(p0: ::wasm_bindgen::JsValue, p1: ::wasm_bindgen::JsValue) -> ::js_sys::Object;\n"
    );
    let mut js = String::new();
    let mut decls = String::new();
    js_enum_variant_constructs(&mut js, &mut decls, "E", &variants, &Tagging::External);
    assert_eq!(
        js,
        "export function __tw_E_construct_B(c){return{\"b\":c}}\n\
         export function __tw_E_construct_C(p0,p1){const o={};if(p0!==undefined)o[\"x\"]=p0;o[\"y\"]=p1;return{\"c\":o}}\n"
    );
}

/// The `wasm_bindgen` block binding `js` with `decls`.
fn block(js: &str, decls: &str) -> String {
    let lit = js.replace('\\', "\\\\").replace('"', "\\\"");
    format!(
        "#[cfg(target_arch = \"wasm32\")]\n#[::wasm_bindgen::prelude::wasm_bindgen(inline_js = \"{lit}\")]\nunsafe extern \"C\" {{\n{decls}}}\n"
    )
}

#[test]
fn struct_js_helpers() {
    let mut x = field("x", ty("u32"));
    x.aliases.push("ex".to_string());
    let y = with_flags(field("y", ty("Inner")), FieldFlags::FLATTEN);
    let z = with_flags(field("z", ty("u8")), 3);
    let s = structure("Point", StructFlags::DENY_UNKNOWN_FIELDS, StructShape::Named(vec![x, y, z]));
    let js = "export function __tw_Point_destruct(v){return[v[\"x\"]??v[\"ex\"],v]}\n\
              export function __tw_Point_construct(p0,p1){const o={};o[\"x\"]=p0;Object.assign(o,p1);return o}\n\
              export function __tw_Point_set_x(o,v){o[\"x\"]=v}\n\
              export function __tw_Point_check_keys(v){for(const k of Object.keys(v)){if(k!==\"x\")return k}return null}\n";
    let decls = "fn __tw_Point_destruct(v: &::wasm_bindgen::JsValue) -> ::js_sys::Array;\n\
                 fn __tw_Point_construct(p0: ::wasm_bindgen::JsValue, p1: ::wasm_bindgen::JsValue) -> ::js_sys::Object;\n\
                 fn __tw_Point_set_x(o: &::wasm_bindgen::JsValue, v: ::wasm_bindgen::JsValue);\n\
                 fn __tw_Point_check_keys(v: &::wasm_bindgen::JsValue) -> ::wasm_bindgen::JsValue;\n";
    assert_eq!(struct_js_bindings(&s), block(js, decls));
    let unit = structure("U", 0, StructShape::Unit);
    assert_eq!(struct_js_bindings(&unit), "");
}

#[test]
fn enum_js_helpers() {
    let e = enumeration(
        "E",
        0,
        Tagging::External,
        vec![
            variant("A", "a", VariantKind::Unit),
            variant("B", "b", VariantKind::Unnamed(vec![ty("u8")])),
            variant("C", "c", VariantKind::Named(vec![field("x", ty("u8"))])),
        ],
    );
    let js = "export function __tw_E_dispatch(v){if(typeof v===\"string\"){switch(v){case\"a\":return 0;case\"b\":return 1;case\"c\":return 2;default:return -1}}if(\"a\"in v)return 0;if(\"b\"in v)return 1;if(\"c\"in v)return 2;return -1}\n\
              export function __tw_E_content_B(v){return v[\"b\"]}\n\
              export function __tw_E_content_C(v){return v[\"c\"]}\n\
              export function __tw_E_construct_B(c){return{\"b\":c}}\n\
              export function __tw_E_construct_C(p0){const o={};o[\"x\"]=p0;return{\"c\":o}}\n\
              export function __tw_E_destruct_C(v){return[v[\"x\"]]}\n\
              export function __tw_E_set_C_x(o,v){o[\"x\"]=v}\n";
    let decls = "fn __tw_E_dispatch(v: &::wasm_bindgen::JsValue) -> i32;\n\
                 fn __tw_E_content_B(v: &::wasm_bindgen::JsValue) -> ::wasm_bindgen::JsValue;\n\
                 fn __tw_E_content_C(v: &::wasm_bindgen::JsValue) -> ::wasm_bindgen::JsValue;\n\
                 fn __tw_E_construct_B(c: ::wasm_bindgen::JsValue) -> ::js_sys::Object;\n\
                 fn __tw_E_construct_C(p0: ::wasm_bindgen::JsValue) -> ::js_sys::Object;\n\
                 fn __tw_E_destruct_C(v: &::wasm_bindgen::JsValue) -> ::js_sys::Array;\n\
                 fn __tw_E_set_C_x(o: &::wasm_bindgen::JsValue, v: ::wasm_bindgen::JsValue);\n";
    assert_eq!(enum_js_bindings(&e), block(js, decls));
    let units = enumeration(
        "U",
        EnumFlags::ALL_UNIT,
        Tagging::External,
        vec![variant("A", "a", VariantKind::Unit)],
    );
    assert_eq!(enum_js_bindings(&units), "");
}

#[test]
fn internal_dispatch_reads_the_tag_field() {
    let e = enumeration(
        "Ev",
        0,
        Tagging::Internal { tag: "type".to_string() },
        vec![variant("Move", "move", VariantKind::Named(vec![field("x", ty("u8"))]))],
    );
    let bindings = js_bindings_for_schema(&Item::Enum(e));
    assert!(bindings.contains("export function __tw_Ev_dispatch(v){switch(v[\\\"type\\\"]){case\\\"move\\\":return 0;default:return -1}}"), "{bindings}");
}

#[test]
fn extra_impls_cover_the_abi_traits() {
    let d = Item::Struct(Struct {
        ident: "U".to_string(),
        generics: Generics {
            params: vec![type_param("T", "Clone")],
            where_clause: "where T: Default".to_string(),
        },
        flags: StructFlags::empty(),
        shape: StructShape::Unit,
    });
    let text = extra_impls(&d);
    assert!(text.starts_with("#[cfg(target_arch = \"wasm32\")]\nimpl<T: Clone> ::wasm_bindgen::describe::WasmDescribe for U<T> where T: Default {\n"), "{text}");
    assert_eq!(text.matches("impl<T: Clone> ").count(), 9);
    assert!(text.contains("impl<T: Clone> ::wasm_bindgen::convert::TryFromJsValue for U<T> where T: Default {\n"), "{text}");
    assert!(text.ends_with("::typewire::Typewire::from_js(value.clone()).ok() }\n}\n"), "{text}");
}

#[test]
fn struct_to_js_passes_serialized_fields() {
    let mut b = field("b", ty("u8"));
    b.skip_serializing_if = Some("is_zero".to_string());
    let s = structure(
        "S",
        0,
        StructShape::Named(vec![
            field("a", ty("u8")),
            with_flags(field("hidden", ty("u8")), FieldFlags::SKIP_SER),
            b,
        ]),
    );
    assert_eq!(
        struct_to_js_body(&s),
        "__tw_S_construct(::typewire::Typewire::to_js(&self.a), if is_zero(&self.b) { ::wasm_bindgen::JsValue::UNDEFINED } else { ::typewire::Typewire::to_js(&self.b) }).into()\n"
    );
    let t = structure("T", 0, StructShape::Tuple(vec![ty("u8"), ty("u8")]));
    assert_eq!(
        struct_to_js_body(&t),
        "let arr = ::js_sys::Array::new();\narr.push(&::typewire::Typewire::to_js(&self.0));\narr.push(&::typewire::Typewire::to_js(&self.1));\narr.into()\n"
    );
    assert_eq!(struct_to_js_body(&structure("U", 0, StructShape::Unit)), "::wasm_bindgen::JsValue::NULL\n");
}

#[test]
fn enum_to_js_by_tagging() {
    let variants = || {
        vec![
            variant("A", "a", VariantKind::Unit),
            variant("B", "b", VariantKind::Unnamed(vec![ty("u8")])),
        ]
    };
    let ext = enumeration("E", 0, Tagging::External, variants());
    assert_eq!(
        enum_to_js_body(&ext),
        "match self {\n\
         E::A => ::wasm_bindgen::JsValue::from_str(\"a\"),\n\
         E::B(__f0, ) => __tw_E_construct_B(::typewire::Typewire::to_js(__f0)).into(),\n\
         #[cfg_attr(not(target_arch = \"wasm32\"), expect(unreachable_patterns, reason = \"wasm-only variants may be skipped\"))]\n\
         _ => ::wasm_bindgen::JsValue::UNDEFINED,\n}\n"
    );
    let int = enumeration("E", 0, Tagging::Internal { tag: "t".to_string() }, variants());
    let body = enum_to_js_body(&int);
    assert!(body.contains("E::A => __tw_E_construct_A().into(),\n"), "{body}");
    assert!(body.contains("E::B(__inner) => { let obj_val = ::typewire::Typewire::to_js(__inner); let _ = ::js_sys::Reflect::set(&obj_val, &::wasm_bindgen::JsValue::from_str(\"t\"), &::wasm_bindgen::JsValue::from_str(\"b\")); obj_val }\n"), "{body}");
    let untagged = enumeration("E", 0, Tagging::Untagged, variants());
    let body = enum_to_js_body(&untagged);
    assert!(body.contains("E::A => ::wasm_bindgen::JsValue::NULL,\n"), "{body}");
    assert!(body.contains("E::B(__inner) => ::typewire::Typewire::to_js(__inner),\n"), "{body}");
}

#[test]
fn untagged_from_js_tries_each_variant() {
    let e = enumeration(
        "V",
        0,
        Tagging::Untagged,
        vec![
            variant("N", "n", VariantKind::Unit),
            variant("O", "o", VariantKind::Named(vec![field("x", ty("u32"))])),
        ],
    );
    let expected = String::from("if value.is_null() || value.is_undefined() { return Ok(V::N); }\n")
        + "if let Ok(v) = (|| -> ::core::result::Result<V, ::typewire::Error> {\n"
        + "let __arr = __tw_V_destruct_O(&value);\n"
        + MISSING_X
        + "Ok(V::O { x, })\n})() { return Ok(v); }\n"
        + "Err(::typewire::Error::NoMatchingVariant)\n";
    assert_eq!(untagged_from_js(&e), expected);
    assert_eq!(enum_from_js_body(&e), expected);
}

#[test]
fn enum_patch_js_forms() {
    let units = enumeration("U", EnumFlags::ALL_UNIT, Tagging::External, vec![variant("A", "a", VariantKind::Unit)]);
    assert_eq!(
        enum_patch_js_fn(&units),
        "fn patch_js(&self, old: &::wasm_bindgen::JsValue, set: impl FnOnce(::wasm_bindgen::JsValue)) {\n\
         let new = self.to_js();\nif old != &new { set(new); }\n}\n"
    );
    let atomic = enumeration("A", EnumFlags::ATOMIC, Tagging::External, vec![variant("A", "a", VariantKind::Unit)]);
    assert_eq!(
        enum_patch_js_fn(&atomic),
        "fn patch_js(&self, old: &::wasm_bindgen::JsValue, set: impl FnOnce(::wasm_bindgen::JsValue)) {\n\
         ::typewire::patch_js_atomic(self, old, set);\n}\n"
    );
    let tagged = enumeration("E", 0, Tagging::External, vec![variant("A", "a", VariantKind::Unit)]);
    assert_eq!(enum_patch_js_fn(&tagged), ext_tagged_patch_js(&tagged));
}

#[test]
fn expanded_methods() {
    let s = structure("Empty", 0, StructShape::Unit);
    let methods = WasmCodegen::expand_struct(&s);
    assert_eq!(methods.len(), 3);
    assert_eq!(
        methods[0],
        "fn to_js(&self) -> ::wasm_bindgen::JsValue {\nuse ::wasm_bindgen::JsCast as _;\n::wasm_bindgen::JsValue::NULL\n}\n"
    );
    assert_eq!(
        methods[1],
        "fn from_js(value: ::wasm_bindgen::JsValue) -> ::core::result::Result<Self, ::typewire::Error> {\n\
         use ::wasm_bindgen::JsCast as _;\n\
         let __parse = move || -> ::core::result::Result<Self, ::typewire::Error> {\n\
         Ok(Empty)\n};\n__parse().map_err(|e| e.in_context(\"Empty\"))\n}\n"
    );
    let t = Transparent {
        ident: "Id".to_string(),
        generics: no_generics(),
        atomic: false,
        field_ident: None,
        field_ty: ty("u64"),
    };
    let methods = WasmCodegen::expand_transparent(&t);
    assert_eq!(
        methods,
        vec![
            "fn to_js(&self) -> ::wasm_bindgen::JsValue {\n<u64 as ::typewire::Typewire>::to_js(&self.0)\n}\n".to_string(),
            "fn from_js(value: ::wasm_bindgen::JsValue) -> ::core::result::Result<Self, ::typewire::Error> {\nlet val = <u64 as ::typewire::Typewire>::from_js(value)?;\nOk(Self(val))\n}\n".to_string(),
            "fn patch_js(&self, old: &::wasm_bindgen::JsValue, set: impl FnOnce(::wasm_bindgen::JsValue)) {\n<u64 as ::typewire::Typewire>::patch_js(&self.0, old, set);\n}\n".to_string(),
        ]
    );
    let e = enumeration("E", 0, Tagging::External, vec![variant("A", "a", VariantKind::Unit)]);
    let methods = WasmCodegen::expand_enum(&e);
    assert!(methods[1].contains("e.in_context(\"E\")"), "{}", methods[1]);
}

#[test]
fn proxy_methods() {
    let into = IntoProxy {
        ident: "Model".to_string(),
        generics: no_generics(),
        into_ty: "Dto".to_string(),
    };
    let methods = WasmCodegen::expand_into_proxy(&into, &FromBody::TryProxy("Dto".to_string()));
    assert_eq!(
        methods[0],
        "fn to_js(&self) -> ::wasm_bindgen::JsValue {\nlet proxy: Dto = ::core::convert::Into::into(self.clone());\n<Dto as ::typewire::Typewire>::to_js(&proxy)\n}\n"
    );
    assert_eq!(
        methods[1],
        "fn from_js(value: ::wasm_bindgen::JsValue) -> ::core::result::Result<Self, ::typewire::Error> {\n\
         let proxy = <Dto as ::typewire::Typewire>::from_js(value)?;\n\
         <Self as ::core::convert::TryFrom<Dto>>::try_from(proxy).map_err(|e| ::typewire::Error::Custom(::std::string::ToString::to_string(&e)))\n}\n"
    );
    let from = FromProxy {
        ident: "Wrapper".to_string(),
        generics: Generics { params: vec![type_param("T", "")], where_clause: String::new() },
        proxy: "Raw".to_string(),
        is_try: false,
    };
    let shape = TypeShape::Struct(structure("Wrapper", 0, StructShape::Unit));
    let methods = WasmCodegen::expand_from_proxy(&from, &shape);
    assert_eq!(
        methods[1],
        "fn from_js(value: ::wasm_bindgen::JsValue) -> ::core::result::Result<Self, ::typewire::Error> {\n\
         let proxy = <Raw as ::typewire::Typewire>::from_js(value)?;\n\
         Ok(<Wrapper<T> as ::core::convert::From<Raw>>::from(proxy))\n}\n"
    );
    assert_eq!(
        methods[2],
        "fn patch_js(&self, _old: &::wasm_bindgen::JsValue, _set: impl FnOnce(::wasm_bindgen::JsValue)) {\n}\n"
    );
}

#[test]
fn generics_split_for_an_impl() {
    let g = Generics {
        params: vec![
            GenericParam::Lifetime { name: "'a".to_string(), bounds: String::new() },
            type_param("T", "Clone + 'a"),
            type_param("U", ""),
            GenericParam::Const { ident: "N".to_string(), ty: "usize".to_string() },
        ],
        where_clause: String::new(),
    };
    assert_eq!(g.impl_generics(), "<'a, T: Clone + 'a, U, const N: usize>");
    assert_eq!(g.ty_generics(), "<'a, T, U, N>");
    let b = g.with_bound("::typewire::Typewire");
    assert_eq!(b.impl_generics(), "<'a, T: Clone + 'a + ::typewire::Typewire, U: ::typewire::Typewire, const N: usize>");
    assert_eq!(b.ty_generics(), "<'a, T, U, N>");
    assert_eq!(no_generics().impl_generics(), "");
    assert_eq!(no_generics().ty_generics(), "");
}

#[test]
fn expand_writes_the_typewire_impl() {
    let d = Item::Struct(Struct {
        ident: "U".to_string(),
        generics: Generics {
            params: vec![type_param("T", "Clone")],
            where_clause: "where T: Default".to_string(),
        },
        flags: StructFlags::empty(),
        shape: StructShape::Unit,
    });
    let text = expand(&d);
    assert!(text.starts_with("impl<T: Clone + ::typewire::Typewire> ::typewire::Typewire for U<T> where T: Default {\n#[cfg(target_arch = \"wasm32\")]\nfn to_js(&self)"), "{text}");
    assert_eq!(text.matches("#[cfg(target_arch = \"wasm32\")]\n").count(), 3);
    assert!(text.contains("#[cfg(target_arch = \"wasm32\")]\nfn from_js("), "{text}");
    assert!(text.contains("#[cfg(target_arch = \"wasm32\")]\nfn patch_js("), "{text}");
    // A generic type has no record static.
    assert!(text.ends_with("type Ident = ::typewire::schema::coded::Ident<1usize>;\nconst IDENT: Self::Ident = ::typewire::schema::coded::Ident::new(*b\"U\");\n}\n"), "{text}");

    let plain = Item::Struct(structure("P", 0, StructShape::Unit));
    let text = expand(&plain);
    assert!(text.starts_with("impl ::typewire::Typewire for P {\n"), "{text}");
    assert!(text.contains("}\nconst _: () = {\n"), "{text}");
    assert!(text.ends_with("static __GAFFER_SCHEMA: ::typewire::schema::coded::Record<::typewire::schema::coded::FlatStruct<1usize>> = ::typewire::schema::coded::Record::new(::typewire::schema::coded::FlatStruct { tag: ::typewire::schema::coded::Tag::Struct, ident: ::typewire::schema::coded::Ident::new(*b\"P\"), flags: ::typewire::schema::StructFlags::from_bits_retain(0u8), shape: ::typewire::schema::coded::StructShapeTag::Unit, generic_count: ::typewire::schema::coded::U32Le::new(0u32), field_count: ::typewire::schema::coded::U32Le::new(0u32), fields: ::typewire::schema::coded::Types0() });\n};\n"), "{text}");
}

#[test]
fn record_static_of_a_struct_names_each_field_type() {
    let mut skipped = field("cache", ty("HashMap<u8, u8>"));
    skipped.flags = FieldFlags::from_bits_retain(FieldFlags::SKIP_SER);
    skipped.default = FieldDefault::Default;
    let mut y = field("my_y", ty("u8"));
    y.wire_name = "my-y".to_string();
    let s = structure(
        "Pt",
        0,
        StructShape::Named(vec![field("x", ty("Vec<T>")), y, skipped]),
    );
    let (items, section) = generate_schema_and_section(&Item::Struct(s));
    assert_eq!(items, "type Ident = ::typewire::schema::coded::Ident<2usize>;\nconst IDENT: Self::Ident = ::typewire::schema::coded::Ident::new(*b\"Pt\");\n");
    let c = "::typewire::schema::coded";
    let expected_ty = format!(
        "{c}::FlatStruct<2usize, {c}::Types3<{c}::FlatField<1usize, 1usize, <Vec<T> as ::typewire::Typewire>::Ident>, {c}::FlatField<4usize, 4usize, <u8 as ::typewire::Typewire>::Ident>, {c}::FlatField<5usize, 5usize, {c}::SkippedIdent>>>"
    );
    assert!(section.contains(&format!("static __GAFFER_SCHEMA: {c}::Record<{expected_ty}> = ")), "{section}");
    assert!(section.contains("wire_name: ::typewire::schema::coded::Ident::new(*b\"my\\x2Dy\")"), "{section}");
    assert!(section.contains("ty: ::typewire::schema::coded::SkippedIdent::SKIPPED, wire_name: ::typewire::schema::coded::Ident::new(*b\"cache\"), flags: ::typewire::schema::FieldFlags::from_bits_retain(1u8), default: ::typewire::schema::coded::FieldDefaultKind::Default }"), "{section}");
    assert!(section.contains("field_count: ::typewire::schema::coded::U32Le::new(3u32), fields: ::typewire::schema::coded::Types3("), "{section}");
}

#[test]
fn record_static_of_an_enum_holds_its_tag_keys() {
    let mut hidden = variant("Hidden", "hidden", VariantKind::Named(vec![field("a", ty("Secret"))]));
    hidden.flags = VariantFlags::from_bits_retain(VariantFlags::SKIP_DE);
    let e = enumeration(
        "Ev",
        0,
        Tagging::Adjacent { tag: "t".to_string(), content: "c".to_string() },
        vec![variant("Pair", "pair", VariantKind::Unnamed(vec![ty("u8"), ty("String")])), hidden],
    );
    let (_, section) = generate_schema_and_section(&Item::Enum(e));
    let c = "::typewire::schema::coded";
    assert!(section.contains(&format!("{c}::FlatEnum<2usize, 1usize, 1usize, {c}::Types2<{c}::FlatVariant<4usize, 4usize, {c}::Types2<<u8 as ::typewire::Typewire>::Ident, <String as ::typewire::Typewire>::Ident>>, {c}::FlatVariant<6usize, 6usize>>>")), "{section}");
    assert!(section.contains(&format!("tagging: {c}::TaggingKind::Adjacent, tag_key: {c}::Ident::new(*b\"t\"), content_key: {c}::Ident::new(*b\"c\")")), "{section}");
    assert!(section.contains(&format!("kind: {c}::VariantKindTag::Unit, child_count: {c}::U32Le::new(0u32), fields: {c}::Types0() }}")), "{section}");
}

#[test]
fn record_static_of_proxies_and_transparent_types() {
    let c = "::typewire::schema::coded";
    let t = Transparent {
        ident: "Id".to_string(),
        generics: no_generics(),
        atomic: true,
        field_ident: None,
        field_ty: ty("u64"),
    };
    let (_, section) = generate_schema_and_section(&Item::Transparent(t));
    assert!(section.contains(&format!("{c}::Record<{c}::FlatTransparent<2usize, <u64 as ::typewire::Typewire>::Ident>> = {c}::Record::new({c}::FlatTransparent {{ tag: {c}::Tag::Transparent, ident: {c}::Ident::new(*b\"Id\"), atomic: 1u8, inner: <u64 as ::typewire::Typewire>::IDENT }});")), "{section}");
    let from = FromProxy { ident: "W".to_string(), generics: no_generics(), proxy: "Raw".to_string(), is_try: true };
    let shape = TypeShape::Struct(structure("W", 0, StructShape::Unit));
    let (_, section) = generate_schema_and_section(&Item::FromProxy(from, shape));
    assert!(section.contains(&format!("{c}::FlatFromProxy {{ tag: {c}::Tag::FromProxy, ident: {c}::Ident::new(*b\"W\"), generic_count: {c}::U32Le::new(0u32), proxy: <Raw as ::typewire::Typewire>::IDENT, is_try: 1u8 }}")), "{section}");
    let into = IntoProxy { ident: "V".to_string(), generics: no_generics(), into_ty: "Dto".to_string() };
    let (_, section) = generate_schema_and_section(&Item::IntoProxy(into, FromBody::Proxy("Dto".to_string())));
    assert!(section.contains(&format!("{c}::Record<{c}::FlatIntoProxy<1usize, <Dto as ::typewire::Typewire>::Ident>>")), "{section}");
}
